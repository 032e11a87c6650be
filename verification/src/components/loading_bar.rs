use vstd::prelude::*;
use crate::components::char_canvas::{CharEntry, entry_map, plain_props};
use crate::point::{Bounds, Vec2};
use crate::terminal::Terminal;

verus! {

/// The direction in which a loading bar fills.
#[derive(Clone, Copy, Debug, PartialEq, Eq, Structural)]
pub enum BarDirection {
    North,
    South,
    East,
    West,
}

/// The character a loading bar is drawn with.
pub open spec fn bar_entry() -> CharEntry {
    CharEntry { c: '█', props: plain_props() }
}

/// `m` with `n` copies of `e` written from `at` to the right.
pub open spec fn run_map(m: Map<Vec2, CharEntry>, at: Vec2, n: int, e: CharEntry) -> Map<
    Vec2,
    CharEntry,
> {
    Map::new(
        |k: Vec2| m.dom().contains(k) || (k.y == at.y && at.x <= k.x < at.x + n),
        |k: Vec2| if k.y == at.y && at.x <= k.x < at.x + n { e } else { m[k] },
    )
}

/// `m` with the characters of `label` written from `at` to the right.
pub open spec fn label_map(m: Map<Vec2, CharEntry>, at: Vec2, label: Seq<char>) -> Map<
    Vec2,
    CharEntry,
> {
    Map::new(
        |k: Vec2| m.dom().contains(k) || in_label(k, at, label),
        |k: Vec2| if in_label(k, at, label) { label_entry(k, at, label) } else { m[k] },
    )
}

/// Whether `k` is one of the cells `label` covers when written from `at`.
pub open spec fn in_label(k: Vec2, at: Vec2, label: Seq<char>) -> bool {
    k.y == at.y && at.x <= k.x < at.x + label.len()
}

/// The entry `label` puts at `k` when written from `at`.
pub open spec fn label_entry(k: Vec2, at: Vec2, label: Seq<char>) -> CharEntry {
    CharEntry { c: label[k.x - at.x], props: plain_props() }
}

/// Writes `n` copies of `e` from the cursor to the right, leaving the cursor
/// just after the last one.
fn draw_run(terminal: &mut Terminal, e: CharEntry, n: usize)
    requires
        old(terminal).cursor().x + n <= isize::MAX,
    ensures
        entry_map(final(terminal).frame()) == run_map(
            entry_map(old(terminal).frame()),
            old(terminal).cursor(),
            n as int,
            e,
        ),
        final(terminal).cursor() == (Vec2 {
            x: (old(terminal).cursor().x + n) as isize,
            y: old(terminal).cursor().y,
        }),
        final(terminal).saved() == old(terminal).saved(),
        final(terminal).previous() == old(terminal).previous(),
        final(terminal).dims() == old(terminal).dims(),
{
    let ghost m0 = entry_map(terminal.frame());
    let ghost at = terminal.cursor();
    let ghost saved = terminal.saved();
    let ghost previous = terminal.previous();
    let ghost dims = terminal.dims();
    let mut i: usize = 0;
    while i < n
        invariant
            i <= n,
            at.x + n <= isize::MAX,
            entry_map(terminal.frame()) == run_map(m0, at, i as int, e),
            terminal.cursor() == (Vec2 { x: (at.x + i) as isize, y: at.y }),
            terminal.saved() == saved,
            terminal.previous() == previous,
            terminal.dims() == dims,
        decreases n - i,
    {
        let ghost before = entry_map(terminal.frame());
        terminal.set_entry(e);
        terminal.move_relative(Vec2::new(1, 0));
        assert(entry_map(terminal.frame()) =~= run_map(m0, at, i + 1, e)) by {
            assert(before.insert(Vec2 { x: (at.x + i) as isize, y: at.y }, e) =~= run_map(
                m0,
                at,
                i + 1,
                e,
            ));
        }
        i = i + 1;
    }
}

/// Writes the characters of `label` from the cursor to the right, leaving
/// the cursor just after the last one.
fn draw_label(terminal: &mut Terminal, label: &Vec<char>)
    requires
        old(terminal).cursor().x + label@.len() <= isize::MAX,
    ensures
        entry_map(final(terminal).frame()) == label_map(
            entry_map(old(terminal).frame()),
            old(terminal).cursor(),
            label@,
        ),
        final(terminal).cursor() == (Vec2 {
            x: (old(terminal).cursor().x + label@.len()) as isize,
            y: old(terminal).cursor().y,
        }),
        final(terminal).saved() == old(terminal).saved(),
        final(terminal).previous() == old(terminal).previous(),
        final(terminal).dims() == old(terminal).dims(),
{
    let ghost m0 = entry_map(terminal.frame());
    let ghost at = terminal.cursor();
    let ghost saved = terminal.saved();
    let ghost previous = terminal.previous();
    let ghost dims = terminal.dims();
    let mut i: usize = 0;
    while i < label.len()
        invariant
            i <= label@.len(),
            at.x + label@.len() <= isize::MAX,
            entry_map(terminal.frame()) == label_map(m0, at, label@.take(i as int)),
            terminal.cursor() == (Vec2 { x: (at.x + i) as isize, y: at.y }),
            terminal.saved() == saved,
            terminal.previous() == previous,
            terminal.dims() == dims,
        decreases label.len() - i,
    {
        let ghost before = entry_map(terminal.frame());
        let c = label[i];
        terminal.set_entry(CharEntry::new(c));
        terminal.move_relative(Vec2::new(1, 0));
        assert(entry_map(terminal.frame()) =~= label_map(m0, at, label@.take(i + 1))) by {
            let t = label@.take(i + 1);
            let p = label@.take(i as int);
            let goal = label_map(m0, at, t);
            let got = before.insert(Vec2 { x: (at.x + i) as isize, y: at.y }, CharEntry { c, props: plain_props() });
            assert(t[i as int] == c);
            assert forall|k: Vec2| #[trigger] goal.contains_key(k) implies got.contains_key(k)
                && got[k] == goal[k] by {
                let pos = Vec2 { x: (at.x + i) as isize, y: at.y };
                assert(pos.x == at.x + i);
                if k == pos {
                    assert(k.x - at.x == i);
                    assert(goal.dom().contains(k));
                    assert(goal[k] == CharEntry { c: t[k.x - at.x], props: plain_props() });
                    assert(goal[k] == CharEntry { c: t[i as int], props: plain_props() });
                    assert(got[k] == CharEntry { c, props: plain_props() });
                    assert(got[k] == goal[k]);
                } else if k.y == at.y && at.x <= k.x < at.x + i {
                    assert(t[k.x - at.x] == p[k.x - at.x]);
                    assert(got[k] == before[k]);
                    assert(got[k] == goal[k]);
                } else {
                    assert(!(k.y == at.y && at.x <= k.x < at.x + i + 1));
                    assert(got[k] == before[k]);
                    assert(got[k] == goal[k]);
                }
            }
            assert forall|k: Vec2| #[trigger] got.contains_key(k) implies goal.contains_key(k) by {}
            assert(got =~= goal);
        }
        i = i + 1;
    }
    assert(label@.take(label@.len() as int) == label@);
}

/// Whether `k` is one of the bar cells of the first `rows` rows drawn from
/// `base`: `bar_len` cells from the left of each row.
pub open spec fn in_bar(k: Vec2, base: Vec2, rows: int, bar_len: int) -> bool {
    base.y <= k.y < base.y + rows && base.x <= k.x < base.x + bar_len
}

/// Where the label starts: centred on the middle row of `bounds`.
pub open spec fn label_origin(base: Vec2, bounds: Bounds, label: Seq<char>) -> Vec2 {
    Vec2 {
        x: (base.x + (bounds.width / 2 - label.len() / 2)) as isize,
        y: (base.y + bounds.height / 2) as isize,
    }
}

/// Whether the label is among the first `rows` rows drawn (it is drawn on
/// the middle row) and covers `k`.
pub open spec fn in_drawn_label(
    k: Vec2,
    base: Vec2,
    rows: int,
    bounds: Bounds,
    label: Seq<char>,
) -> bool {
    bounds.height / 2 < rows && in_label(k, label_origin(base, bounds, label), label)
}

/// `m` with the first `rows` rows of a loading bar drawn from `base` inside
/// `bounds`: `bar_len` bar cells at the left of every row, and `label`
/// written over the middle row, centred.
pub open spec fn loading_map(
    m: Map<Vec2, CharEntry>,
    base: Vec2,
    rows: int,
    bounds: Bounds,
    bar_len: int,
    label: Seq<char>,
) -> Map<Vec2, CharEntry> {
    Map::new(
        |k: Vec2|
            m.dom().contains(k) || in_bar(k, base, rows, bar_len) || in_drawn_label(
                k,
                base,
                rows,
                bounds,
                label,
            ),
        |k: Vec2|
            if in_drawn_label(k, base, rows, bounds, label) {
                label_entry(k, label_origin(base, bounds, label), label)
            } else if in_bar(k, base, rows, bar_len) {
                bar_entry()
            } else {
                m[k]
            },
    )
}

/// What a loading bar of `bounds.height` rows leaves in the frame `m`, drawn
/// from `base`: on the middle row the label, centred (starting
/// `width / 2 - label length / 2` cells in), whatever the bar's length; every
/// other cell among the first `bar_len` of each row holds the bar character;
/// all remaining cells are as they were.
pub proof fn lemma_loading_bar_cells(
    m: Map<Vec2, CharEntry>,
    base: Vec2,
    bounds: Bounds,
    bar_len: int,
    label: Seq<char>,
)
    requires
        label.len() / 2 <= bounds.width / 2,
        base.x + (bounds.width / 2 - label.len() / 2) + label.len() <= isize::MAX,
        base.y + bounds.height <= isize::MAX,
    ensures
        forall|j: int|
            #![trigger label[j]]
            0 <= j < label.len() && bounds.height > 0 ==> {
                let k = Vec2 {
                    x: (base.x + (bounds.width / 2 - label.len() / 2) + j) as isize,
                    y: (base.y + bounds.height / 2) as isize,
                };
                &&& loading_map(m, base, bounds.height as int, bounds, bar_len, label).contains_key(k)
                &&& loading_map(m, base, bounds.height as int, bounds, bar_len, label)[k] == (
                CharEntry { c: label[j], props: plain_props() })
            },
        forall|k: Vec2|
            base.y <= k.y < base.y + bounds.height && base.x <= k.x < base.x + bar_len && !(k.y
                == base.y + bounds.height / 2 && base.x + (bounds.width / 2 - label.len() / 2)
                <= k.x < base.x + (bounds.width / 2 - label.len() / 2) + label.len()) ==> {
                &&& #[trigger] loading_map(m, base, bounds.height as int, bounds, bar_len, label).contains_key(k)
                &&& loading_map(m, base, bounds.height as int, bounds, bar_len, label)[k] == (
                CharEntry { c: '█', props: plain_props() })
            },
        forall|k: Vec2|
            !(base.y <= k.y < base.y + bounds.height && base.x <= k.x < base.x + bar_len) && !(
            bounds.height > 0 && k.y == base.y + bounds.height / 2 && base.x + (bounds.width / 2
                - label.len() / 2) <= k.x < base.x + (bounds.width / 2 - label.len() / 2)
                + label.len()) ==> {
                &&& #[trigger] loading_map(m, base, bounds.height as int, bounds, bar_len, label).contains_key(k)
                    == m.contains_key(k)
                &&& m.contains_key(k) ==> loading_map(
                    m,
                    base,
                    bounds.height as int,
                    bounds,
                    bar_len,
                    label,
                )[k] == m[k]
            },
{
    let h = bounds.height as int;
    let o = label_origin(base, bounds, label);
    assert(o.x == base.x + (bounds.width / 2 - label.len() / 2));
    assert(o.y == base.y + bounds.height / 2);
    let lm = loading_map(m, base, h, bounds, bar_len, label);
    assert forall|j: int| #![trigger label[j]] 0 <= j < label.len() && bounds.height > 0 implies {
        let k = Vec2 {
            x: (base.x + (bounds.width / 2 - label.len() / 2) + j) as isize,
            y: (base.y + bounds.height / 2) as isize,
        };
        &&& lm.contains_key(k)
        &&& lm[k] == (CharEntry { c: label[j], props: plain_props() })
    } by {
        let k = Vec2 {
            x: (base.x + (bounds.width / 2 - label.len() / 2) + j) as isize,
            y: (base.y + bounds.height / 2) as isize,
        };
        assert(in_drawn_label(k, base, h, bounds, label));
        assert(k.x - o.x == j);
    }
}

/// Draws a loading bar inside `bounds` from the cursor: every row gets
/// `bar_len` bar cells from its left edge, and `label` is written over the
/// middle row, centred. The cursor ends at the start of the row below the
/// last one.
pub fn draw_loading_bar(terminal: &mut Terminal, bounds: &Bounds, bar_len: usize, label: &Vec<char>)
    requires
        label@.len() / 2 <= bounds.width / 2,
        old(terminal).cursor().x + bar_len <= isize::MAX,
        old(terminal).cursor().x + (bounds.width / 2 - label@.len() / 2) + label@.len()
            <= isize::MAX,
        old(terminal).cursor().y + bounds.height <= isize::MAX,
    ensures
        entry_map(final(terminal).frame()) == loading_map(
            entry_map(old(terminal).frame()),
            old(terminal).cursor(),
            bounds.height as int,
            *bounds,
            bar_len as int,
            label@,
        ),
        final(terminal).cursor() == (Vec2 {
            x: old(terminal).cursor().x,
            y: (old(terminal).cursor().y + bounds.height) as isize,
        }),
        final(terminal).saved() == old(terminal).saved(),
        final(terminal).previous() == old(terminal).previous(),
        final(terminal).dims() == old(terminal).dims(),
{
    let ghost m0 = entry_map(terminal.frame());
    let ghost base = terminal.cursor();
    let ghost saved = terminal.saved();
    let ghost previous = terminal.previous();
    let ghost dims = terminal.dims();
    let ghost lab = label@;
    let height = *bounds.height();
    let middle = height / 2;
    let offset = bounds.width() / 2 - label.len() / 2;
    let mut y: usize = 0;
    while y < height
        invariant
            y <= height,
            height == bounds.height,
            middle == height / 2,
            offset == bounds.width / 2 - lab.len() / 2,
            lab == label@,
            label@.len() / 2 <= bounds.width / 2,
            base.x + bar_len <= isize::MAX,
            base.x + offset + label@.len() <= isize::MAX,
            base.y + height <= isize::MAX,
            entry_map(terminal.frame()) == loading_map(m0, base, y as int, *bounds, bar_len as int, lab),
            terminal.cursor() == (Vec2 { x: base.x, y: (base.y + y) as isize }),
            terminal.saved() == saved,
            terminal.previous() == previous,
            terminal.dims() == dims,
        decreases height - y,
    {
        let ghost before = entry_map(terminal.frame());
        let ghost row = terminal.cursor();
        terminal.push_cursor_stack();
        if y == middle {
            terminal.push_cursor_stack();
            draw_run(terminal, CharEntry::new('█'), bar_len);
            terminal.pop_cursor_stack();
            let ghost after_bar = entry_map(terminal.frame());
            terminal.push_cursor_stack();
            terminal.move_relative(Vec2::new(offset as isize, 0));
            let ghost at = terminal.cursor();
            assert(at == label_origin(base, *bounds, lab));
            draw_label(terminal, label);
            terminal.pop_cursor_stack();
            proof {
                let goal = loading_map(m0, base, y + 1, *bounds, bar_len as int, lab);
                let got = label_map(run_map(before, row, bar_len as int, bar_entry()), at, lab);
                assert forall|k: Vec2| #[trigger] goal.contains_key(k) == got.contains_key(k) && (
                goal.contains_key(k) ==> goal[k] == got[k]) by {}
                assert(got =~= goal);
            }
        } else {
            draw_run(terminal, CharEntry::new('█'), bar_len);
            proof {
                let goal = loading_map(m0, base, y + 1, *bounds, bar_len as int, lab);
                let got = run_map(before, row, bar_len as int, bar_entry());
                assert forall|k: Vec2| #[trigger] goal.contains_key(k) == got.contains_key(k) && (
                goal.contains_key(k) ==> goal[k] == got[k]) by {}
                assert(got =~= goal);
            }
        }
        terminal.pop_cursor_stack();
        terminal.move_relative(Vec2::new(0, 1));
        y = y + 1;
    }
    assert(entry_map(terminal.frame()) == loading_map(m0, base, height as int, *bounds, bar_len as int, lab));
}

} // verus!
