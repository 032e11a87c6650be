use vstd::prelude::*;
use crate::components::char_canvas::{CharEntry, entry_map, entry_positions, plain_props};
use crate::point::{Bounds, Vec2, vec2_lt, fits_isize};

pub mod application;
pub mod events;
pub mod frame_clock;
pub mod lib_c;
pub mod terminal_dims;

use terminal_dims::TerminalDims;

verus! {

/// A step of bringing the screen up to date: move the cursor, or print one
/// styled character where the cursor stands.
#[derive(Clone, Copy, Debug, PartialEq, Eq, Structural)]
pub enum DrawCommand {
    Goto(Vec2),
    Print(CharEntry),
}

/// Positions strictly increase in reading order along `s`.
pub open spec fn sorted_positions(s: Seq<(Vec2, CharEntry)>) -> bool {
    forall|i: int, j: int| 0 <= i < j < s.len() ==> vec2_lt(#[trigger] s[i].0, #[trigger] s[j].0)
}

/// Whether `c` is in the column right after `last` (rows are not compared).
pub open spec fn right_after(c: Vec2, last: Vec2) -> bool {
    c.x == last.x + 1
}

/// The position of the last entry of `s`, or `init` when there is none.
pub open spec fn last_position(s: Seq<(Vec2, CharEntry)>, init: Vec2) -> Vec2 {
    if s.len() == 0 {
        init
    } else {
        s.last().0
    }
}

/// The commands that draw `entry` at `c` after something was drawn at `last`:
/// a move unless `c` is right after `last`, then the character.
pub open spec fn draw_step(c: Vec2, last: Vec2, entry: CharEntry) -> Seq<DrawCommand> {
    (if right_after(c, last) { seq![] } else { seq![DrawCommand::Goto(c)] }) + seq![
        DrawCommand::Print(entry),
    ]
}

/// The commands that draw the entries of `s` in order, starting after `init`.
pub open spec fn frame_commands(s: Seq<(Vec2, CharEntry)>, init: Vec2) -> Seq<DrawCommand>
    decreases s.len(),
{
    if s.len() == 0 {
        seq![]
    } else {
        frame_commands(s.drop_last(), init) + draw_step(
            s.last().0,
            last_position(s.drop_last(), init),
            s.last().1,
        )
    }
}

/// The blank drawn over a cell that is no longer used.
pub open spec fn blank_entry() -> CharEntry {
    CharEntry { c: ' ', props: plain_props() }
}

/// The commands that blank the positions of `s`, each judged against the same
/// `last` position.
pub open spec fn clear_commands(s: Seq<(Vec2, CharEntry)>, last: Vec2) -> Seq<DrawCommand>
    decreases s.len(),
{
    if s.len() == 0 {
        seq![]
    } else {
        clear_commands(s.drop_last(), last) + draw_step(s.last().0, last, blank_entry())
    }
}

/// The entries of `s` whose position is not one of `ks`, in order.
pub open spec fn without_positions(s: Seq<(Vec2, CharEntry)>, ks: Seq<Vec2>) -> Seq<
    (Vec2, CharEntry),
>
    decreases s.len(),
{
    if s.len() == 0 {
        seq![]
    } else {
        without_positions(s.drop_last(), ks) + (if ks.contains(s.last().0) {
            seq![]
        } else {
            seq![s.last()]
        })
    }
}

/// The terminal's screen: the frame being drawn, the frame drawn last time,
/// and a virtual cursor (with a stack of saved positions) that says where
/// the next character goes.
#[derive(Debug)]
pub struct Terminal {
    dimensions: TerminalDims,
    virt_cursor: Vec2,
    cursor_stack: Vec<Vec2>,
    buffer_a: Vec<(Vec2, CharEntry)>,
    buffer_b: Vec<(Vec2, CharEntry)>,
}

impl Terminal {
    pub closed spec fn dims(&self) -> TerminalDims {
        self.dimensions
    }

    /// Where the next character goes.
    pub closed spec fn cursor(&self) -> Vec2 {
        self.virt_cursor
    }

    /// The saved cursor positions, the most recent last.
    pub closed spec fn saved(&self) -> Seq<Vec2> {
        self.cursor_stack@
    }

    /// The frame being drawn, in reading order.
    pub closed spec fn frame(&self) -> Seq<(Vec2, CharEntry)> {
        self.buffer_a@
    }

    /// The frame drawn last time, in reading order.
    pub closed spec fn previous(&self) -> Seq<(Vec2, CharEntry)> {
        self.buffer_b@
    }

    /// Both frames are in reading order.
    #[verifier::type_invariant]
    pub closed spec fn wf(&self) -> bool {
        sorted_positions(self.buffer_a@) && sorted_positions(self.buffer_b@)
    }

    /// A screen of the given dimensions, with nothing drawn and the cursor
    /// at the top-left corner.
    pub fn new(dimensions: TerminalDims) -> (t: Terminal)
        ensures
            t.dims() == dimensions,
            t.cursor() == (Vec2 { x: 0, y: 0 }),
            t.saved() == Seq::<Vec2>::empty(),
            t.frame() == Seq::<(Vec2, CharEntry)>::empty(),
            t.previous() == Seq::<(Vec2, CharEntry)>::empty(),
    {
        Terminal {
            dimensions,
            virt_cursor: Vec2::new(0, 0),
            cursor_stack: Vec::new(),
            buffer_a: Vec::new(),
            buffer_b: Vec::new(),
        }
    }

    /// Where the next character goes.
    pub fn cursor_position(&self) -> (c: Vec2)
        ensures
            c == self.cursor(),
    {
        self.virt_cursor
    }

    /// Records new dimensions, as read after the terminal was resized.
    pub fn set_dimensions(&mut self, dimensions: TerminalDims)
        ensures
            final(self).dims() == dimensions,
            final(self).cursor() == old(self).cursor(),
            final(self).saved() == old(self).saved(),
            final(self).frame() == old(self).frame(),
            final(self).previous() == old(self).previous(),
    {
        proof {
            use_type_invariant(&*self);
        }
        self.dimensions = dimensions;
    }

    /// The number of columns.
    pub fn width(&self) -> (w: usize)
        ensures
            w == self.dims().cols,
    {
        self.dimensions.cols as usize
    }

    /// The number of rows.
    pub fn height(&self) -> (h: usize)
        ensures
            h == self.dims().rows,
    {
        self.dimensions.rows as usize
    }

    pub fn bounds(&self) -> (b: Bounds)
        ensures
            b == (Bounds { width: self.dims().cols as usize, height: self.dims().rows as usize }),
    {
        Bounds::new(self.width(), self.height())
    }

    /// Puts `entry` at the cursor, replacing what the frame held there.
    pub fn set_entry(&mut self, entry: CharEntry)
        ensures
            entry_map(final(self).frame()) == entry_map(old(self).frame()).insert(
                old(self).cursor(),
                entry,
            ),
            final(self).cursor() == old(self).cursor(),
            final(self).saved() == old(self).saved(),
            final(self).previous() == old(self).previous(),
            final(self).dims() == old(self).dims(),
    {
        proof {
            use_type_invariant(&*self);
        }
        let mut buf: Vec<(Vec2, CharEntry)> = Vec::new();
        core::mem::swap(&mut self.buffer_a, &mut buf);
        let c = self.virt_cursor;
        let ghost s = buf@;
        let mut i: usize = 0;
        while i < buf.len() && (buf[i].0.y < c.y || (buf[i].0.y
            == c.y && buf[i].0.x < c.x))
            invariant
                i <= s.len(),
                buf@ == s,
                forall|j: int| 0 <= j < i ==> vec2_lt(#[trigger] s[j].0, c),
            decreases buf.len() - i,
        {
            i = i + 1;
        }
        proof {
            lemma_sorted_positions_distinct(s);
        }
        if i < buf.len() && buf[i].0 == c {
            buf.set(i, (c, entry));
            proof {
                lemma_entry_map_set(s, i as int, c, entry);
                assert(sorted_positions(buf@)) by {
                    assert forall|a: int, b: int| 0 <= a < b < buf@.len() implies vec2_lt(
                        #[trigger] buf@[a].0,
                        #[trigger] buf@[b].0,
                    ) by {
                        assert(buf@[a].0 == s[a].0);
                        assert(buf@[b].0 == s[b].0);
                    }
                }
            }
        } else {
            buf.insert(i, (c, entry));
            proof {
                assert forall|j: int| 0 <= j < s.len() implies s[j].0 != c by {
                    if j >= i {
                        assert(!vec2_lt(s[i as int].0, c));
                        if j > i {
                            assert(vec2_lt(s[i as int].0, s[j].0));
                        }
                    }
                }
                lemma_entry_map_insert_new(s, i as int, c, entry);
                assert(sorted_positions(buf@)) by {
                    let t = buf@;
                    assert forall|a: int, b: int| 0 <= a < b < t.len() implies vec2_lt(
                        #[trigger] t[a].0,
                        #[trigger] t[b].0,
                    ) by {
                        if a < i {
                            assert(t[a] == s[a]);
                        } else if a > i {
                            assert(t[a] == s[a - 1]);
                        }
                        if b < i {
                            assert(t[b] == s[b]);
                        } else if b > i {
                            assert(t[b] == s[b - 1]);
                            if a == i && i < s.len() {
                                assert(!vec2_lt(s[i as int].0, c));
                                assert(s[i as int].0 != c);
                            }
                            if a == i && b - 1 > i {
                                assert(vec2_lt(s[i as int].0, s[b - 1].0));
                            }
                        }
                    }
                }
            }
        }
        core::mem::swap(&mut self.buffer_a, &mut buf);
    }

    /// Moves the cursor by `delta`.
    pub fn move_relative(&mut self, delta: Vec2)
        requires
            fits_isize(old(self).cursor().x + delta.x),
            fits_isize(old(self).cursor().y + delta.y),
        ensures
            final(self).cursor() == (Vec2 {
                x: (old(self).cursor().x + delta.x) as isize,
                y: (old(self).cursor().y + delta.y) as isize,
            }),
            final(self).saved() == old(self).saved(),
            final(self).frame() == old(self).frame(),
            final(self).previous() == old(self).previous(),
            final(self).dims() == old(self).dims(),
    {
        proof {
            use_type_invariant(&*self);
        }
        self.virt_cursor = Vec2::new(self.virt_cursor.x + delta.x, self.virt_cursor.y + delta.y);
    }

    /// Saves the cursor position.
    pub fn push_cursor_stack(&mut self)
        ensures
            final(self).saved() == old(self).saved().push(old(self).cursor()),
            final(self).cursor() == old(self).cursor(),
            final(self).frame() == old(self).frame(),
            final(self).previous() == old(self).previous(),
            final(self).dims() == old(self).dims(),
    {
        proof {
            use_type_invariant(&*self);
        }
        let mut stack: Vec<Vec2> = Vec::new();
        core::mem::swap(&mut self.cursor_stack, &mut stack);
        stack.push(self.virt_cursor);
        core::mem::swap(&mut self.cursor_stack, &mut stack);
    }

    /// Restores the most recently saved cursor position, if any.
    pub fn pop_cursor_stack(&mut self)
        ensures
            old(self).saved().len() > 0 ==> final(self).cursor() == old(self).saved().last()
                && final(self).saved() == old(self).saved().drop_last(),
            old(self).saved().len() == 0 ==> final(self).cursor() == old(self).cursor()
                && final(self).saved() == old(self).saved(),
            final(self).frame() == old(self).frame(),
            final(self).previous() == old(self).previous(),
            final(self).dims() == old(self).dims(),
    {
        proof {
            use_type_invariant(&*self);
        }
        let mut stack: Vec<Vec2> = Vec::new();
        core::mem::swap(&mut self.cursor_stack, &mut stack);
        let top = stack.pop();
        core::mem::swap(&mut self.cursor_stack, &mut stack);
        match top {
            Some(c) => {
                self.virt_cursor = c;
            },
            None => {},
        }
    }

    /// Whether the cursor stands on the screen.
    pub fn cursor_is_within_term_bounds(&self) -> (b: bool)
        ensures
            b == (0 <= self.cursor().x && 0 <= self.cursor().y && self.cursor().x < (
            self.dims().cols as isize) && self.cursor().y < (self.dims().rows as isize)),
    {
        self.virt_cursor.x >= 0 && self.virt_cursor.y >= 0 && self.virt_cursor.x
            < self.width() as isize && self.virt_cursor.y < self.height() as isize
    }

    /// Starts a new frame: the cursor goes back to the top-left corner and
    /// the frame being drawn is emptied.
    pub fn sync(&mut self)
        ensures
            final(self).cursor() == (Vec2 { x: 0, y: 0 }),
            final(self).frame() == Seq::<(Vec2, CharEntry)>::empty(),
            final(self).saved() == old(self).saved(),
            final(self).previous() == old(self).previous(),
            final(self).dims() == old(self).dims(),
    {
        proof {
            use_type_invariant(&*self);
        }
        self.virt_cursor = Vec2::new(0, 0);
        self.buffer_a = Vec::new();
    }

    /// Ends the frame being drawn: the commands that bring the screen from
    /// the last frame to this one (the cells of this frame in reading order,
    /// then blanks over the cells only the last frame used). This frame then
    /// becomes the last one, and what is left of the last one becomes the
    /// frame being drawn.
    pub fn finish_frame(&mut self) -> (cmds: Vec<DrawCommand>)
        ensures
            cmds@ == seq![DrawCommand::Goto(Vec2 { x: 0, y: 0 })] + frame_commands(
                old(self).frame(),
                Vec2 { x: 0, y: 0 },
            ) + clear_commands(
                without_positions(old(self).previous(), entry_positions(old(self).frame())),
                last_position(old(self).frame(), Vec2 { x: 0, y: 0 }),
            ),
            final(self).previous() == old(self).frame(),
            final(self).frame() == without_positions(
                old(self).previous(),
                entry_positions(old(self).frame()),
            ),
            final(self).cursor() == old(self).cursor(),
            final(self).saved() == old(self).saved(),
            final(self).dims() == old(self).dims(),
    {
        proof {
            use_type_invariant(&*self);
        }
        let origin = Vec2::new(0, 0);
        let ghost a = self.buffer_a@;
        let ghost b = self.buffer_b@;
        let ghost ka = entry_positions(a);
        let mut cmds: Vec<DrawCommand> = Vec::new();
        cmds.push(DrawCommand::Goto(origin));
        let mut last = origin;
        let mut i: usize = 0;
        while i < self.buffer_a.len()
            invariant
                i <= a.len(),
                self.buffer_a@ == a,
                cmds@ == seq![DrawCommand::Goto(origin)] + frame_commands(a.take(i as int), origin),
                last == last_position(a.take(i as int), origin),
            decreases self.buffer_a.len() - i,
        {
            let (coord, entry) = self.buffer_a[i];
            proof {
                assert(a.take(i + 1).drop_last() == a.take(i as int));
            }
            if !(last.x < isize::MAX && coord.x == last.x + 1) {
                cmds.push(DrawCommand::Goto(coord));
            }
            cmds.push(DrawCommand::Print(entry));
            last = coord;
            i = i + 1;
        }
        proof {
            assert(a.take(a.len() as int) == a);
        }
        let mut stale: Vec<(Vec2, CharEntry)> = Vec::new();
        let mut j: usize = 0;
        while j < self.buffer_b.len()
            invariant
                j <= b.len(),
                self.buffer_b@ == b,
                self.buffer_a@ == a,
                ka == entry_positions(a),
                stale@ == without_positions(b.take(j as int), ka),
            decreases self.buffer_b.len() - j,
        {
            let (coord, entry) = self.buffer_b[j];
            let mut found = false;
            let mut k: usize = 0;
            while k < self.buffer_a.len()
                invariant
                    k <= a.len(),
                    self.buffer_a@ == a,
                    ka == entry_positions(a),
                    found == (exists|m: int| 0 <= m < k && #[trigger] ka[m] == coord),
                decreases self.buffer_a.len() - k,
            {
                if self.buffer_a[k].0 == coord {
                    found = true;
                }
                proof {
                    assert(ka[k as int] == a[k as int].0);
                    if found {
                        assert(exists|m: int| 0 <= m < k + 1 && #[trigger] ka[m] == coord);
                    }
                }
                k = k + 1;
            }
            proof {
                assert(b.take(j + 1).drop_last() == b.take(j as int));
                assert(b.take(j + 1).last() == (coord, entry));
                assert(found == ka.contains(coord));
            }
            if !found {
                stale.push((coord, entry));
            }
            j = j + 1;
        }
        proof {
            assert(b.take(b.len() as int) == b);
            lemma_without_positions_sorted(b, ka);
        }
        let ghost stale_s = stale@;
        let mut n: usize = 0;
        while n < stale.len()
            invariant
                n <= stale_s.len(),
                stale@ == stale_s,
                cmds@ == seq![DrawCommand::Goto(origin)] + frame_commands(a, origin)
                    + clear_commands(stale_s.take(n as int), last),
            decreases stale.len() - n,
        {
            let coord = stale[n].0;
            proof {
                assert(stale_s.take(n + 1).drop_last() == stale_s.take(n as int));
            }
            if !(last.x < isize::MAX && coord.x == last.x + 1) {
                cmds.push(DrawCommand::Goto(coord));
            }
            cmds.push(DrawCommand::Print(CharEntry::new(' ')));
            n = n + 1;
        }
        proof {
            assert(stale_s.take(stale_s.len() as int) == stale_s);
        }
        self.buffer_b = stale;
        core::mem::swap(&mut self.buffer_a, &mut self.buffer_b);
        cmds
    }
}

/// Reading order never puts a position before itself, so positions in reading
/// order are distinct.
proof fn lemma_sorted_positions_distinct(s: Seq<(Vec2, CharEntry)>)
    requires
        sorted_positions(s),
    ensures
        entry_positions(s).no_duplicates(),
{
    let ks = entry_positions(s);
    assert forall|i: int, j: int| 0 <= i < ks.len() && 0 <= j < ks.len() && i != j implies ks[i]
        != ks[j] by {
        assert(ks[i] == s[i].0 && ks[j] == s[j].0);
        if i < j {
            assert(vec2_lt(s[i].0, s[j].0));
        } else {
            assert(vec2_lt(s[j].0, s[i].0));
        }
    }
}

proof fn lemma_entry_map_set(s: Seq<(Vec2, CharEntry)>, i: int, v: Vec2, e: CharEntry)
    requires
        entry_positions(s).no_duplicates(),
        0 <= i < s.len(),
        s[i].0 == v,
    ensures
        entry_map(s.update(i, (v, e))) == entry_map(s).insert(v, e),
{
    let t = s.update(i, (v, e));
    assert(entry_positions(t) == entry_positions(s));
    let ks = entry_positions(s);
    assert(ks[i] == v);
    assert forall|k: Vec2| #[trigger] entry_map(t).contains_key(k) implies entry_map(t)[k]
        == entry_map(s).insert(v, e)[k] by {
        let j = ks.index_of(k);
        assert(ks[j] == k);
        if k == v {
            assert(j == i);
        } else {
            assert(j != i);
        }
    }
    assert(entry_map(t) =~= entry_map(s).insert(v, e));
}

proof fn lemma_entry_map_insert_new(s: Seq<(Vec2, CharEntry)>, i: int, v: Vec2, e: CharEntry)
    requires
        entry_positions(s).no_duplicates(),
        0 <= i <= s.len(),
        forall|j: int| 0 <= j < s.len() ==> s[j].0 != v,
    ensures
        entry_map(s.insert(i, (v, e))) == entry_map(s).insert(v, e),
{
    let t = s.insert(i, (v, e));
    let ks = entry_positions(s);
    let kt = entry_positions(t);
    assert(kt == ks.insert(i, v));
    assert forall|a: int, b: int| 0 <= a < kt.len() && 0 <= b < kt.len() && a != b implies kt[a]
        != kt[b] by {
        let sa = if a < i { a } else { a - 1 };
        let sb = if b < i { b } else { b - 1 };
        if a != i && b != i {
            assert(kt[a] == ks[sa] && kt[b] == ks[sb]);
        } else if a == i {
            assert(kt[b] == ks[sb]);
            assert(ks[sb] == s[sb].0);
        } else {
            assert(kt[a] == ks[sa]);
            assert(ks[sa] == s[sa].0);
        }
    }
    assert forall|k: Vec2| #[trigger] entry_map(t).contains_key(k) implies entry_map(t)[k]
        == entry_map(s).insert(v, e)[k] by {
        let j = kt.index_of(k);
        assert(kt[j] == k);
        if k == v {
            assert(kt[i] == v);
            assert(j == i);
        } else {
            let sj = if j < i { j } else { j - 1 };
            assert(j != i);
            assert(ks[sj] == k);
            let j2 = ks.index_of(k);
            assert(ks[j2] == k);
            assert(j2 == sj);
            assert(t[j] == s[sj]);
        }
    }
    assert forall|k: Vec2| entry_map(s).insert(v, e).contains_key(k) implies #[trigger] entry_map(
        t,
    ).contains_key(k) by {
        if k != v {
            let j = ks.index_of(k);
            let tj = if j < i { j } else { j + 1 };
            assert(kt[tj] == k);
        } else {
            assert(kt[i] == v);
        }
    }
    assert(entry_map(t) =~= entry_map(s).insert(v, e));
}

/// Leaving entries out keeps the rest in reading order.
proof fn lemma_without_positions_sorted(s: Seq<(Vec2, CharEntry)>, ks: Seq<Vec2>)
    requires
        sorted_positions(s),
    ensures
        sorted_positions(without_positions(s, ks)),
        forall|i: int| 0 <= i < without_positions(s, ks).len() ==> exists|j: int| 0 <= j < s.len() && #[trigger] without_positions(s, ks)[i] == s[j],
    decreases s.len(),
{
    if s.len() > 0 {
        let r = s.drop_last();
        assert(sorted_positions(r));
        lemma_without_positions_sorted(r, ks);
        let w = without_positions(r, ks);
        let w2 = without_positions(s, ks);
        assert forall|i: int| 0 <= i < w2.len() implies exists|j: int| 0 <= j < s.len() && #[trigger] w2[i] == s[j] by {
            if i < w.len() {
                assert(w2[i] == w[i]);
                let j = choose|j: int| 0 <= j < r.len() && #[trigger] w[i] == r[j];
                assert(w2[i] == s[j]);
            } else {
                assert(w2[i] == s[s.len() - 1]);
            }
        }
        assert forall|a: int, b: int| 0 <= a < b < w2.len() implies vec2_lt(
            #[trigger] w2[a].0,
            #[trigger] w2[b].0,
        ) by {
            assert(w2[a] == w[a]);
            if b < w.len() {
                assert(w2[b] == w[b]);
            } else {
                let j = choose|j: int| 0 <= j < r.len() && #[trigger] w[a] == r[j];
                assert(w2[b] == s[s.len() - 1]);
                assert(vec2_lt(s[j].0, s[s.len() - 1].0));
            }
        }
    }
}

/// Saving the cursor and restoring it gives back the position and the saved
/// positions as they were (stated over the views that `push_cursor_stack`
/// and `pop_cursor_stack` speak of).
pub proof fn lemma_push_pop_restores_cursor(before: Vec2, saved: Seq<Vec2>)
    ensures
        saved.push(before).len() > 0,
        saved.push(before).last() == before,
        saved.push(before).drop_last() == saved,
{
}

/// Writing at the cursor and reading the frame there gives what was written,
/// and leaves the other positions alone.
pub proof fn lemma_set_entry_then_read(m: Map<Vec2, CharEntry>, at: Vec2, e: CharEntry, other: Vec2)
    requires
        other != at,
    ensures
        m.insert(at, e)[at] == e,
        m.insert(at, e).contains_key(at),
        m.contains_key(other) ==> m.insert(at, e)[other] == m[other],
{
}

/// The characters that `cmds` prints, in order.
pub open spec fn printed(cmds: Seq<DrawCommand>) -> Seq<CharEntry>
    decreases cmds.len(),
{
    if cmds.len() == 0 {
        seq![]
    } else {
        match cmds.last() {
            DrawCommand::Print(e) => printed(cmds.drop_last()).push(e),
            DrawCommand::Goto(_) => printed(cmds.drop_last()),
        }
    }
}

proof fn lemma_printed_append(a: Seq<DrawCommand>, b: Seq<DrawCommand>)
    ensures
        printed(a + b) == printed(a) + printed(b),
    decreases b.len(),
{
    if b.len() == 0 {
        assert(a + b == a);
    } else {
        assert((a + b).drop_last() == a + b.drop_last());
        lemma_printed_append(a, b.drop_last());
    }
}

proof fn lemma_printed_step(c: Vec2, last: Vec2, e: CharEntry)
    ensures
        printed(draw_step(c, last, e)) == seq![e],
{
    let g: Seq<DrawCommand> = if right_after(c, last) { seq![] } else { seq![DrawCommand::Goto(c)] };
    lemma_printed_append(g, seq![DrawCommand::Print(e)]);
    if !right_after(c, last) {
        assert(g.drop_last() == Seq::<DrawCommand>::empty());
        assert(printed(Seq::<DrawCommand>::empty()) == Seq::<CharEntry>::empty());
        assert(printed(g) == Seq::<CharEntry>::empty());
    } else {
        assert(printed(g) == Seq::<CharEntry>::empty());
    }
    let p: Seq<DrawCommand> = seq![DrawCommand::Print(e)];
    assert(p.drop_last() == Seq::<DrawCommand>::empty());
    assert(printed(p) == printed(p.drop_last()).push(e));
    assert(printed(p) == seq![e]);
    assert(draw_step(c, last, e) == g + p);
}

/// Drawing a frame prints exactly its entries, in reading order.
pub proof fn lemma_frame_prints_entries(s: Seq<(Vec2, CharEntry)>, init: Vec2)
    ensures
        printed(frame_commands(s, init)) == s.map_values(|e: (Vec2, CharEntry)| e.1),
    decreases s.len(),
{
    if s.len() > 0 {
        lemma_frame_prints_entries(s.drop_last(), init);
        lemma_printed_append(
            frame_commands(s.drop_last(), init),
            draw_step(s.last().0, last_position(s.drop_last(), init), s.last().1),
        );
        lemma_printed_step(s.last().0, last_position(s.drop_last(), init), s.last().1);
        assert(s.map_values(|e: (Vec2, CharEntry)| e.1) == s.drop_last().map_values(
            |e: (Vec2, CharEntry)| e.1,
        ).push(s.last().1));
    } else {
        assert(s.map_values(|e: (Vec2, CharEntry)| e.1) == Seq::<CharEntry>::empty());
    }
}

/// Clearing cells prints one blank per cell.
pub proof fn lemma_clear_prints_blanks(s: Seq<(Vec2, CharEntry)>, last: Vec2)
    ensures
        printed(clear_commands(s, last)) == Seq::new(s.len(), |i: int| blank_entry()),
    decreases s.len(),
{
    if s.len() > 0 {
        lemma_clear_prints_blanks(s.drop_last(), last);
        lemma_printed_append(
            clear_commands(s.drop_last(), last),
            draw_step(s.last().0, last, blank_entry()),
        );
        lemma_printed_step(s.last().0, last, blank_entry());
        assert(Seq::new(s.len(), |i: int| blank_entry()) == Seq::new(
            s.drop_last().len(),
            |i: int| blank_entry(),
        ).push(blank_entry()));
    } else {
        assert(Seq::new(s.len(), |i: int| blank_entry()) == Seq::<CharEntry>::empty());
    }
}

} // verus!
