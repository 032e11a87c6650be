use vstd::prelude::*;
use crate::point::Bounds;

verus! {

/// Whether a split window lays its parts out side by side (`Vertical`) or
/// one above the other (`Horizontal`).
#[derive(Clone, Copy, Debug, PartialEq, Eq, Structural)]
pub enum SplitDir {
    Vertical,
    Horizontal,
}

impl Default for SplitDir {
    fn default() -> (d: SplitDir)
        ensures
            d == SplitDir::Vertical,
    {
        SplitDir::Vertical
    }
}

/// A window divided among components in proportion to their ratios; each
/// part records the sum of the ratios before it and its own ratio.
pub struct SplitWindow<C> {
    split_dir: SplitDir,
    ratio_sum: usize,
    entries: Vec<(usize, usize, C)>,
}

/// The parts' (ratios before, own ratio) pairs.
pub open spec fn ratio_pairs<C>(entries: Seq<(usize, usize, C)>) -> Seq<(usize, usize)> {
    entries.map_values(|e: (usize, usize, C)| (e.0, e.1))
}

/// The offset at which part `i` starts, along a side of length `length`.
pub open spec fn part_start(parts: Seq<(usize, usize)>, i: int, total: usize, length: usize) -> int {
    (parts[i].0 * length) / (total as int)
}

/// The cursor move made before drawing part `i`: the start of part `i`
/// minus the move made before part `i - 1` (moves are not undone between
/// parts, the cursor being restored to where each move left it).
pub open spec fn part_move(parts: Seq<(usize, usize)>, i: int, total: usize, length: usize) -> int
    decreases i + 1,
{
    if i < 0 {
        0
    } else {
        part_start(parts, i, total, length) - part_move(parts, i - 1, total, length)
    }
}

/// Whether laying out `parts` along a side of length `length` stays within
/// `usize`: a nonzero total, products that fit, and moves that are not negative.
pub open spec fn layout_fits(parts: Seq<(usize, usize)>, total: usize, length: usize) -> bool {
    &&& parts.len() > 0 ==> total > 0
    &&& forall|i: int|
        #![trigger parts[i]]
        0 <= i < parts.len() ==> parts[i].0 * length <= usize::MAX && parts[i].1 * length
            <= usize::MAX && part_move(parts, i, total, length) >= 0
}

/// For each part, the cursor move before drawing it and the bounds it is
/// drawn in.
pub open spec fn split_layout(
    parts: Seq<(usize, usize)>,
    total: usize,
    dir: SplitDir,
    bounds: Bounds,
) -> Seq<(Bounds, Bounds)> {
    let length = if dir == SplitDir::Vertical { bounds.width } else { bounds.height };
    Seq::new(
        parts.len(),
        |i: int|
            {
                let mv = part_move(parts, i, total, length) as usize;
                let size = ((parts[i].1 * length) / (total as int)) as usize;
                if dir == SplitDir::Vertical {
                    (Bounds { width: mv, height: 0 }, Bounds { width: size, height: bounds.height })
                } else {
                    (Bounds { width: 0, height: mv }, Bounds { width: bounds.width, height: size })
                }
            },
    )
}

impl<C> SplitWindow<C> {
    pub closed spec fn direction(&self) -> SplitDir {
        self.split_dir
    }

    /// The sum of all parts' ratios.
    pub closed spec fn ratio_total(&self) -> usize {
        self.ratio_sum
    }

    /// Each part's (ratios before it, own ratio).
    pub closed spec fn parts(&self) -> Seq<(usize, usize)> {
        ratio_pairs(self.entries@)
    }

    /// The parts' components, in order.
    pub closed spec fn components(&self) -> Seq<C> {
        self.entries@.map_values(|e: (usize, usize, C)| e.2)
    }

    pub fn new() -> (w: SplitWindow<C>)
        ensures
            w.direction() == SplitDir::Vertical,
            w.ratio_total() == 0,
            w.parts() == Seq::<(usize, usize)>::empty(),
            w.components() == Seq::<C>::empty(),
    {
        let w = SplitWindow { split_dir: SplitDir::Vertical, ratio_sum: 0, entries: Vec::new() };
        assert(w.parts() == Seq::<(usize, usize)>::empty());
        assert(w.components() == Seq::<C>::empty());
        w
    }

    /// Adds a part with ratio `window_ratio` after the others.
    pub fn with_component(self, window_ratio: usize, component: C) -> (w: SplitWindow<C>)
        requires
            self.ratio_total() + window_ratio <= usize::MAX,
        ensures
            w.direction() == self.direction(),
            w.ratio_total() == self.ratio_total() + window_ratio,
            w.parts() == self.parts().push((self.ratio_total(), window_ratio)),
            w.components() == self.components().push(component),
    {
        let mut w = self;
        let ghost old_entries = w.entries@;
        w.entries.push((w.ratio_sum, window_ratio, component));
        w.ratio_sum = w.ratio_sum + window_ratio;
        assert(w.parts() == ratio_pairs(old_entries).push((self.ratio_total(), window_ratio)));
        assert(w.components() == self.components().push(component));
        w
    }

    pub fn with_direction(self, split_dir: SplitDir) -> (w: SplitWindow<C>)
        ensures
            w.direction() == split_dir,
            w.ratio_total() == self.ratio_total(),
            w.parts() == self.parts(),
            w.components() == self.components(),
    {
        let mut w = self;
        w.split_dir = split_dir;
        w
    }

    /// The number of parts.
    pub fn len(&self) -> (n: usize)
        ensures
            n == self.parts().len(),
    {
        self.entries.len()
    }

    /// The sum of all parts' ratios.
    pub fn ratio_sum(&self) -> (s: usize)
        ensures
            s == self.ratio_total(),
    {
        self.ratio_sum
    }

    /// The component of part `i`, to draw it.
    pub fn component_mut(&mut self, i: usize) -> (c: &mut C)
        requires
            i < old(self).parts().len(),
        ensures
            *c == old(self).components()[i as int],
            final(self).components() == old(self).components().update(i as int, *final(c)),
            final(self).parts() == old(self).parts(),
            final(self).direction() == old(self).direction(),
            final(self).ratio_total() == old(self).ratio_total(),
    {
        &mut self.entries[i].2
    }

    /// Whether `layout` can place the parts inside `bounds` without leaving
    /// the range of `usize`.
    pub fn can_layout(&self, bounds: &Bounds) -> (ok: bool)
        ensures
            ok == layout_fits(
                self.parts(),
                self.ratio_total(),
                if self.direction() == SplitDir::Vertical {
                    bounds.width
                } else {
                    bounds.height
                },
            ),
    {
        let length = match self.split_dir {
            SplitDir::Vertical => bounds.width,
            SplitDir::Horizontal => bounds.height,
        };
        let ghost parts = self.parts();
        let total = self.ratio_sum;
        if self.entries.len() > 0 && total == 0 {
            return false;
        }
        let mut delta: usize = 0;
        let mut i: usize = 0;
        while i < self.entries.len()
            invariant
                i <= self.entries@.len(),
                parts == ratio_pairs(self.entries@),
                total == self.ratio_sum,
                length == (if self.split_dir == SplitDir::Vertical { bounds.width } else { bounds.height }),
                parts.len() > 0 ==> total > 0,
                forall|j: int|
                    #![trigger parts[j]]
                    0 <= j < i ==> parts[j].0 * length <= usize::MAX && parts[j].1 * length
                        <= usize::MAX && part_move(parts, j, total, length) >= 0,
                delta == part_move(parts, i - 1, total, length),
            decreases self.entries.len() - i,
        {
            let before = self.entries[i].0;
            let ratio = self.entries[i].1;
            assert(parts[i as int] == (before, ratio));
            let start = match before.checked_mul(length) {
                Some(v) => v / total,
                None => {
                    assert(!(parts[i as int].0 * length <= usize::MAX));
                    return false;
                },
            };
            if ratio.checked_mul(length).is_none() || start < delta {
                assert(!(parts[i as int].0 * length <= usize::MAX && parts[i as int].1 * length
                    <= usize::MAX && part_move(parts, i as int, total, length) >= 0));
                return false;
            }
            delta = start - delta;
            i = i + 1;
        }
        true
    }

    /// Where each part is drawn inside `bounds`: the cursor move made before
    /// it and the bounds it gets, in order.
    pub fn layout(&self, bounds: &Bounds) -> (placements: Vec<(Bounds, Bounds)>)
        requires
            layout_fits(
                self.parts(),
                self.ratio_total(),
                if self.direction() == SplitDir::Vertical {
                    bounds.width
                } else {
                    bounds.height
                },
            ),
        ensures
            placements@ == split_layout(self.parts(), self.ratio_total(), self.direction(), *bounds),
    {
        let vertical = match self.split_dir {
            SplitDir::Vertical => true,
            SplitDir::Horizontal => false,
        };
        let length = if vertical {
            bounds.width
        } else {
            bounds.height
        };
        let ghost parts = self.parts();
        let ghost target = split_layout(parts, self.ratio_sum, self.split_dir, *bounds);
        let mut placements: Vec<(Bounds, Bounds)> = Vec::new();
        let mut delta: usize = 0;
        let mut i: usize = 0;
        while i < self.entries.len()
            invariant
                i <= self.entries@.len(),
                parts == ratio_pairs(self.entries@),
                layout_fits(parts, self.ratio_sum, length),
                length == (if self.split_dir == SplitDir::Vertical { bounds.width } else { bounds.height }),
                vertical == (self.split_dir == SplitDir::Vertical),
                target == split_layout(parts, self.ratio_sum, self.split_dir, *bounds),
                delta == part_move(parts, i - 1, self.ratio_sum, length),
                placements@ == target.take(i as int),
            decreases self.entries.len() - i,
        {
            let before = self.entries[i].0;
            let ratio = self.entries[i].1;
            assert(parts[i as int] == (before, ratio));
            assert(parts[i as int].0 * length <= usize::MAX && parts[i as int].1 * length <= usize::MAX);
            assert(part_move(parts, i as int, self.ratio_sum, length) >= 0);
            let start = (before * length) / self.ratio_sum;
            let size = (ratio * length) / self.ratio_sum;
            delta = start - delta;
            let placement = if vertical {
                (Bounds::new(delta, 0), Bounds::new(size, bounds.height))
            } else {
                (Bounds::new(0, delta), Bounds::new(bounds.width, size))
            };
            placements.push(placement);
            assert(placements@ == target.take(i + 1));
            i = i + 1;
        }
        assert(target.take(self.entries@.len() as int) == target);
        placements
    }
}

/// When the first part starts at 0 (as in every window built with
/// `with_component`), the moves made before the first three parts add up to
/// where each of them starts, so with up to three parts every part is drawn
/// at its own start.
/// (From the fourth part on the moves no longer add up: with four equal
/// parts of an 80-column window the fourth is drawn at column 80, not 60.)
pub proof fn lemma_first_parts_start_in_place(parts: Seq<(usize, usize)>, total: usize, length: usize)
    requires
        parts.len() >= 3,
        parts[0].0 == 0,
        total > 0,
    ensures
        part_move(parts, 0, total, length) == part_start(parts, 0, total, length),
        part_move(parts, 0, total, length) + part_move(parts, 1, total, length) == part_start(
            parts,
            1,
            total,
            length,
        ),
        part_move(parts, 0, total, length) + part_move(parts, 1, total, length) + part_move(
            parts,
            2,
            total,
            length,
        ) == part_start(parts, 2, total, length),
{
    assert(part_move(parts, -1, total, length) == 0);
    assert(part_start(parts, 0, total, length) == 0) by {
        assert(parts[0].0 * length == 0);
    }
}

/// The sum of the parts' own ratios.
pub open spec fn ratio_sum(parts: Seq<(usize, usize)>) -> int
    decreases parts.len(),
{
    if parts.len() == 0 {
        0
    } else {
        ratio_sum(parts.drop_last()) + parts.last().1
    }
}

/// Each part records the sum of the ratios before it, and `total` is the sum
/// of all of them.
pub open spec fn ratios_accumulate(parts: Seq<(usize, usize)>, total: usize) -> bool {
    &&& total == ratio_sum(parts)
    &&& forall|i: int| 0 <= i < parts.len() ==> #[trigger] parts[i].0 == ratio_sum(parts.take(i))
}

/// A window with no parts accumulates its ratios, and adding a part the way
/// `with_component` does keeps it so.
pub proof fn lemma_with_component_accumulates(parts: Seq<(usize, usize)>, total: usize, ratio: usize)
    requires
        ratios_accumulate(parts, total),
        total + ratio <= usize::MAX,
    ensures
        ratios_accumulate(Seq::<(usize, usize)>::empty(), 0),
        ratios_accumulate(parts.push((total, ratio)), (total + ratio) as usize),
{
    let p2 = parts.push((total, ratio));
    assert(p2.drop_last() == parts);
    assert forall|i: int| 0 <= i < p2.len() implies #[trigger] p2[i].0 == ratio_sum(p2.take(i)) by {
        if i < parts.len() {
            assert(p2.take(i) == parts.take(i));
        } else {
            assert(p2.take(i) == parts);
        }
    }
}

} // verus!
