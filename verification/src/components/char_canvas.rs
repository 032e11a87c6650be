use vstd::prelude::*;
use vstd::std_specs::convert::FromSpecImpl;
use crate::escapes::TerminalRequest;
use crate::point::{Bounds, Vec2, fits_isize};
use crate::terminal::Terminal;

verus! {

/// The flag bit for bold text.
pub const BOLD_MASK: u32 = 0b0001;

/// The flag bit for underlined text.
pub const UNDERLINE_MASK: u32 = 0b0010;

/// The flag bit for reverse video.
pub const REVERSE_VIDEO_MASK: u32 = 0b0100;

/// How a character is drawn: style flags and a colour.
#[derive(Clone, Copy, Debug, PartialEq, Eq, Structural)]
pub struct Props {
    pub flags: u32,
    pub r: u8,
    pub g: u8,
    pub b: u8,
}

/// The plain style: no flags, white.
pub open spec fn plain_props() -> Props {
    Props { flags: 0, r: 255, g: 255, b: 255 }
}

/// Whether `flags` has a bit of `mask` set.
pub open spec fn flag_set(flags: u32, mask: u32) -> bool {
    flags & mask != 0
}

/// The requests that switch on the styles of `flags`: bold, then underline,
/// then reverse video, each only when its flag is set.
pub open spec fn style_requests(flags: u32) -> Seq<TerminalRequest> {
    (if flag_set(flags, BOLD_MASK) { seq![TerminalRequest::Bold] } else { seq![] }) + (if flag_set(
        flags,
        UNDERLINE_MASK,
    ) {
        seq![TerminalRequest::Underline]
    } else {
        seq![]
    }) + (if flag_set(flags, REVERSE_VIDEO_MASK) {
        seq![TerminalRequest::ReverseVideo]
    } else {
        seq![]
    })
}

impl Props {
    pub fn new() -> (p: Props)
        ensures
            p == plain_props(),
    {
        Props { flags: 0, r: 255, g: 255, b: 255 }
    }

    fn has_flag(&self, mask: u32) -> (b: bool)
        ensures
            b == flag_set(self.flags, mask),
    {
        (self.flags & mask) != 0
    }

    /// Adds the bold flag, keeping the others.
    pub fn with_bold(self) -> (p: Props)
        ensures
            p == (Props { flags: self.flags | BOLD_MASK, ..self }),
    {
        let mut p = self;
        p.flags = p.flags | BOLD_MASK;
        p
    }

    /// Adds the underline flag, keeping the others.
    pub fn with_underline(self) -> (p: Props)
        ensures
            p == (Props { flags: self.flags | UNDERLINE_MASK, ..self }),
    {
        let mut p = self;
        p.flags = p.flags | UNDERLINE_MASK;
        p
    }

    /// Sets the flags to reverse video alone: bold and underline set before
    /// are dropped (the colour is kept).
    pub fn with_reverse_video(self) -> (p: Props)
        ensures
            p == (Props { flags: REVERSE_VIDEO_MASK, ..self }),
    {
        let mut p = self;
        p.flags = REVERSE_VIDEO_MASK;
        p
    }

    /// The terminal requests that switch on this style.
    pub fn apply_props(&self) -> (reqs: Vec<TerminalRequest>)
        ensures
            reqs@ == style_requests(self.flags),
    {
        let mut reqs: Vec<TerminalRequest> = Vec::new();
        if self.has_flag(BOLD_MASK) {
            reqs.push(TerminalRequest::Bold);
        }
        if self.has_flag(UNDERLINE_MASK) {
            reqs.push(TerminalRequest::Underline);
        }
        if self.has_flag(REVERSE_VIDEO_MASK) {
            reqs.push(TerminalRequest::ReverseVideo);
        }
        reqs
    }
}

/// A character together with the style it is drawn in.
#[derive(Clone, Copy, Debug, PartialEq, Eq, Structural)]
pub struct CharEntry {
    pub c: char,
    pub props: Props,
}

impl From<char> for CharEntry {
    fn from(value: char) -> (e: CharEntry) {
        CharEntry { c: value, props: Props::new() }
    }
}

impl FromSpecImpl<char> for CharEntry {
    open spec fn obeys_from_spec() -> bool {
        true
    }

    open spec fn from_spec(value: char) -> CharEntry {
        CharEntry { c: value, props: plain_props() }
    }
}

impl CharEntry {
    pub fn new(c: char) -> (e: CharEntry)
        ensures
            e == (CharEntry { c, props: plain_props() }),
    {
        CharEntry { c, props: Props::new() }
    }

    pub fn set_char(&mut self, c: char)
        ensures
            *final(self) == (CharEntry { c, ..*old(self) }),
    {
        self.c = c;
    }

    pub fn inner_char(&self) -> (c: char)
        ensures
            c == self.c,
    {
        self.c
    }

    pub fn with_props(self, props: Props) -> (e: CharEntry)
        ensures
            e == (CharEntry { props, ..self }),
    {
        let mut e = self;
        e.props = props;
        e
    }

    /// The terminal requests that switch on this entry's style.
    pub fn apply_props(&self) -> (reqs: Vec<TerminalRequest>)
        ensures
            reqs@ == style_requests(self.props.flags),
    {
        self.props.apply_props()
    }
}

/// The positions of the entries of `s`, in order.
pub open spec fn entry_positions(s: Seq<(Vec2, CharEntry)>) -> Seq<Vec2> {
    s.map_values(|e: (Vec2, CharEntry)| e.0)
}

/// The entries of `s` as a map from position to entry.
pub open spec fn entry_map(s: Seq<(Vec2, CharEntry)>) -> Map<Vec2, CharEntry> {
    Map::new(
        |k: Vec2| entry_positions(s).contains(k),
        |k: Vec2| s[entry_positions(s).index_of(k)].1,
    )
}

/// A free-form drawing surface: characters placed at positions, drawn shifted
/// by an offset; `U` is the callback that refreshes it before each drawing.
pub struct CharCanvas<U> {
    offset: Vec2,
    entries: Vec<(Vec2, CharEntry)>,
    update_fn: Option<U>,
}

impl<U> CharCanvas<U> {
    /// No position holds two entries.
    #[verifier::type_invariant]
    pub closed spec fn wf(&self) -> bool {
        entry_positions(self.entries@).no_duplicates()
    }

    /// The entries, as a map from position to entry.
    pub closed spec fn entries(&self) -> Map<Vec2, CharEntry> {
        entry_map(self.entries@)
    }

    /// The entries, in the order in which they are drawn.
    pub closed spec fn entry_list(&self) -> Seq<(Vec2, CharEntry)> {
        self.entries@
    }

    pub closed spec fn offset(&self) -> Vec2 {
        self.offset
    }

    pub closed spec fn update_fn(&self) -> Option<U> {
        self.update_fn
    }

    pub fn new() -> (c: CharCanvas<U>)
        ensures
            c.entries() == Map::<Vec2, CharEntry>::empty(),
            c.entry_list() == Seq::<(Vec2, CharEntry)>::empty(),
            c.offset() == (Vec2 { x: 0, y: 0 }),
            c.update_fn() is None,
    {
        let c = CharCanvas { offset: Vec2 { x: 0, y: 0 }, entries: Vec::new(), update_fn: None };
        assert(c.entries() == Map::<Vec2, CharEntry>::empty());
        c
    }

    /// The same canvas, refreshed by `update_fn` before each drawing.
    pub fn on_render(self, update_fn: U) -> (c: CharCanvas<U>)
        ensures
            c.entry_list() == self.entry_list(),
            c.entries() == self.entries(),
            c.offset() == self.offset(),
            c.update_fn() == Some(update_fn),
    {
        proof {
            use_type_invariant(&self);
        }
        CharCanvas { offset: self.offset, entries: self.entries, update_fn: Some(update_fn) }
    }

    /// Places `entry` at `(x, y)`, replacing whatever stood there (in its
    /// place in the drawing order; a new position comes last).
    pub fn set_entry(&mut self, x: isize, y: isize, entry: CharEntry)
        ensures
            final(self).entries() == old(self).entries().insert(Vec2 { x, y }, entry),
            final(self).entry_list() == (if entry_positions(old(self).entry_list()).contains(
                Vec2 { x, y },
            ) {
                old(self).entry_list().update(
                    entry_positions(old(self).entry_list()).index_of(Vec2 { x, y }),
                    (Vec2 { x, y }, entry),
                )
            } else {
                old(self).entry_list().push((Vec2 { x, y }, entry))
            }),
            final(self).offset() == old(self).offset(),
            final(self).update_fn() == old(self).update_fn(),
    {
        proof {
            use_type_invariant(&*self);
        }
        let mut buf: Vec<(Vec2, CharEntry)> = Vec::new();
        core::mem::swap(&mut self.entries, &mut buf);
        let v = Vec2::new(x, y);
        let ghost old_s = buf@;
        let mut i: usize = 0;
        while i < buf.len() && buf[i].0 != v
            invariant
                i <= buf@.len(),
                buf@ == old_s,
                forall|j: int| 0 <= j < i ==> buf@[j].0 != v,
            decreases buf.len() - i,
        {
            i = i + 1;
        }
        if i < buf.len() {
            proof {
                let ks = entry_positions(old_s);
                assert(ks[i as int] == v);
                assert(ks.contains(v));
                let j = ks.index_of(v);
                assert(0 <= j < ks.len() && ks[j] == v);
                assert(j == i);
            }
            buf.set(i, (v, entry));
            proof {
                lemma_entry_map_update(old_s, i as int, v, entry);
            }
        } else {
            proof {
                let ks = entry_positions(old_s);
                assert forall|j: int| 0 <= j < ks.len() implies ks[j] != v by {
                    assert(ks[j] == old_s[j].0);
                }
            }
            buf.push((v, entry));
            proof {
                lemma_entry_map_push(old_s, v, entry);
            }
        }
        core::mem::swap(&mut self.entries, &mut buf);
    }

    pub fn set_offset(&mut self, x: isize, y: isize)
        ensures
            final(self).offset() == (Vec2 { x, y }),
            final(self).entry_list() == old(self).entry_list(),
            final(self).entries() == old(self).entries(),
            final(self).update_fn() == old(self).update_fn(),
    {
        proof {
            use_type_invariant(&*self);
        }
        self.offset = Vec2::new(x, y);
    }

    /// Removes every entry.
    pub fn clear(&mut self)
        ensures
            final(self).entries() == Map::<Vec2, CharEntry>::empty(),
            final(self).entry_list() == Seq::<(Vec2, CharEntry)>::empty(),
            final(self).offset() == old(self).offset(),
            final(self).update_fn() == old(self).update_fn(),
    {
        proof {
            use_type_invariant(&*self);
        }
        self.entries = Vec::new();
        assert(self.entries() == Map::<Vec2, CharEntry>::empty());
    }

    /// The number of positions that hold an entry.
    pub fn len(&self) -> (n: usize)
        ensures
            n == self.entries().dom().len(),
    {
        proof {
            use_type_invariant(self);
            lemma_entry_map_len(self.entries@);
        }
        self.entries.len()
    }
}

/// Whether the entry at `c`, shifted by `offset`, lies within `b`.
pub open spec fn canvas_in_bounds(c: Vec2, offset: Vec2, b: Bounds) -> bool {
    0 <= c.x + offset.x < (b.width as isize) && 0 <= c.y + offset.y < (b.height as isize)
}

/// `m` with the entries of `s` that lie within `b` (once shifted by
/// `offset`) written over it at their position shifted by `base + offset`.
pub open spec fn canvas_paint(
    m: Map<Vec2, CharEntry>,
    base: Vec2,
    offset: Vec2,
    s: Seq<(Vec2, CharEntry)>,
    b: Bounds,
) -> Map<Vec2, CharEntry>
    decreases s.len(),
{
    if s.len() == 0 {
        m
    } else {
        let m2 = canvas_paint(m, base, offset, s.drop_last(), b);
        let e = s.last();
        if canvas_in_bounds(e.0, offset, b) {
            m2.insert(
                Vec2 {
                    x: (base.x + offset.x + e.0.x) as isize,
                    y: (base.y + offset.y + e.0.y) as isize,
                },
                e.1,
            )
        } else {
            m2
        }
    }
}

/// The position of the last entry of `s` that lies within `b`, or the origin.
pub open spec fn canvas_last(s: Seq<(Vec2, CharEntry)>, offset: Vec2, b: Bounds) -> Vec2
    decreases s.len(),
{
    if s.len() == 0 {
        Vec2 { x: 0, y: 0 }
    } else if canvas_in_bounds(s.last().0, offset, b) {
        s.last().0
    } else {
        canvas_last(s.drop_last(), offset, b)
    }
}

proof fn lemma_canvas_last(s: Seq<(Vec2, CharEntry)>, offset: Vec2, b: Bounds)
    ensures
        canvas_last(s, offset, b) == (Vec2 { x: 0, y: 0 }) || canvas_in_bounds(
            canvas_last(s, offset, b),
            offset,
            b,
        ),
    decreases s.len(),
{
    if s.len() > 0 {
        lemma_canvas_last(s.drop_last(), offset, b);
    }
}

impl<U> CharCanvas<U> {
    /// Takes the refresh callback out, to call it on the canvas.
    pub fn take_update_fn(&mut self) -> (f: Option<U>)
        ensures
            f == old(self).update_fn(),
            final(self).update_fn() is None,
            final(self).entry_list() == old(self).entry_list(),
            final(self).offset() == old(self).offset(),
    {
        proof {
            use_type_invariant(&*self);
        }
        let mut f: Option<U> = None;
        core::mem::swap(&mut self.update_fn, &mut f);
        f
    }

    /// Puts a refresh callback (back) in.
    pub fn set_update_fn(&mut self, f: U)
        ensures
            final(self).update_fn() == Some(f),
            final(self).entry_list() == old(self).entry_list(),
            final(self).offset() == old(self).offset(),
    {
        proof {
            use_type_invariant(&*self);
        }
        self.update_fn = Some(f);
    }

    /// Whether `draw_entries` can draw this canvas on `terminal` within
    /// `bounds` without leaving the range of `isize`.
    pub fn can_draw(&self, terminal: &Terminal, bounds: &Bounds) -> (ok: bool)
        ensures
            ok == (fits_isize(terminal.cursor().x + self.offset().x) && fits_isize(
                terminal.cursor().y + self.offset().y,
            ) && terminal.cursor().x + (bounds.width as isize) <= isize::MAX && terminal.cursor().y
                + (bounds.height as isize) <= isize::MAX && forall|i: int|
                0 <= i < self.entry_list().len() ==> fits_isize(
                    (#[trigger] self.entry_list()[i]).0.x + self.offset().x,
                ) && fits_isize(self.entry_list()[i].0.y + self.offset().y)),
    {
        let c = terminal.cursor_position();
        let o = self.offset;
        if c.x.checked_add(o.x).is_none() || c.y.checked_add(o.y).is_none() {
            return false;
        }
        if c.x.checked_add(*bounds.width() as isize).is_none() && (*bounds.width() as isize) > 0 {
            return false;
        }
        if c.y.checked_add(*bounds.height() as isize).is_none() && (*bounds.height() as isize) > 0 {
            return false;
        }
        let mut i: usize = 0;
        while i < self.entries.len()
            invariant
                i <= self.entries@.len(),
                o == self.offset,
                c == terminal.cursor(),
                fits_isize(c.x + o.x) && fits_isize(c.y + o.y),
                c.x + (bounds.width as isize) <= isize::MAX,
                c.y + (bounds.height as isize) <= isize::MAX,
                forall|j: int|
                    0 <= j < i ==> fits_isize((#[trigger] self.entries@[j]).0.x + o.x) && fits_isize(
                        self.entries@[j].0.y + o.y,
                    ),
            decreases self.entries.len() - i,
        {
            let p = self.entries[i].0;
            if p.x.checked_add(o.x).is_none() || p.y.checked_add(o.y).is_none() {
                assert(!(fits_isize(self.entry_list()[i as int].0.x + self.offset().x)
                    && fits_isize(self.entry_list()[i as int].0.y + self.offset().y)));
                return false;
            }
            i = i + 1;
        }
        true
    }

    /// Draws the entries on `terminal`, shifted by the offset from the
    /// cursor, leaving out those that fall outside `bounds`.
    pub fn draw_entries(&self, terminal: &mut Terminal, bounds: &Bounds)
        requires
            fits_isize(old(terminal).cursor().x + self.offset().x),
            fits_isize(old(terminal).cursor().y + self.offset().y),
            old(terminal).cursor().x + (bounds.width as isize) <= isize::MAX,
            old(terminal).cursor().y + (bounds.height as isize) <= isize::MAX,
            forall|i: int|
                0 <= i < self.entry_list().len() ==> fits_isize(
                    (#[trigger] self.entry_list()[i]).0.x + self.offset().x,
                ) && fits_isize(self.entry_list()[i].0.y + self.offset().y),
        ensures
            entry_map(final(terminal).frame()) == canvas_paint(
                entry_map(old(terminal).frame()),
                old(terminal).cursor(),
                self.offset(),
                self.entry_list(),
                *bounds,
            ),
            final(terminal).cursor().x == old(terminal).cursor().x + self.offset().x + canvas_last(
                self.entry_list(),
                self.offset(),
                *bounds,
            ).x,
            final(terminal).cursor().y == old(terminal).cursor().y + self.offset().y + canvas_last(
                self.entry_list(),
                self.offset(),
                *bounds,
            ).y,
            final(terminal).saved() == old(terminal).saved(),
            final(terminal).previous() == old(terminal).previous(),
            final(terminal).dims() == old(terminal).dims(),
    {
        let ghost base = terminal.cursor();
        let ghost m0 = entry_map(terminal.frame());
        let ghost s = self.entries@;
        let ghost saved = terminal.saved();
        let ghost previous = terminal.previous();
        let ghost dims = terminal.dims();
        assert forall|j: int| 0 <= j < s.len() implies fits_isize((#[trigger] s[j]).0.x + self.offset.x)
            && fits_isize(s[j].0.y + self.offset.y) by {
            assert(s[j] == self.entry_list()[j]);
        }
        let mut position = Vec2::new(0, 0);
        let delta = self.offset - position;
        terminal.move_relative(delta);
        let mut i: usize = 0;
        while i < self.entries.len()
            invariant
                i <= s.len(),
                s == self.entries@,
                position == canvas_last(s.take(i as int), self.offset, *bounds),
                terminal.cursor().x == base.x + self.offset.x + position.x,
                terminal.cursor().y == base.y + self.offset.y + position.y,
                entry_map(terminal.frame()) == canvas_paint(m0, base, self.offset, s.take(i as int), *bounds),
                terminal.saved() == saved,
                terminal.previous() == previous,
                terminal.dims() == dims,
                fits_isize(base.x + self.offset.x),
                fits_isize(base.y + self.offset.y),
                base.x + (bounds.width as isize) <= isize::MAX,
                base.y + (bounds.height as isize) <= isize::MAX,
                forall|j: int|
                    0 <= j < s.len() ==> fits_isize((#[trigger] s[j]).0.x + self.offset.x)
                        && fits_isize(s[j].0.y + self.offset.y),
            decreases s.len() - i,
        {
            let (coord, entry) = self.entries[i];
            proof {
                assert(s.take(i + 1).drop_last() == s.take(i as int));
                assert(s.take(i + 1).last() == (coord, entry));
                lemma_canvas_last(s.take(i as int), self.offset, *bounds);
                assert(fits_isize(s[i as int].0.x + self.offset.x));
            }
            if (coord + self.offset).is_within_bounds(bounds) {
                let delta = coord - position;
                position.add_assign(delta);
                terminal.move_relative(delta);
                terminal.set_entry(entry);
            }
            i = i + 1;
        }
        proof {
            assert(s.take(s.len() as int) == s);
        }
    }
}

proof fn lemma_entry_map_update(s: Seq<(Vec2, CharEntry)>, i: int, v: Vec2, e: CharEntry)
    requires
        entry_positions(s).no_duplicates(),
        0 <= i < s.len(),
        s[i].0 == v,
    ensures
        entry_positions(s.update(i, (v, e))).no_duplicates(),
        entry_map(s.update(i, (v, e))) == entry_map(s).insert(v, e),
{
    let t = s.update(i, (v, e));
    assert(entry_positions(t) == entry_positions(s));
    let ks = entry_positions(s);
    assert(ks[i] == v);
    assert forall|k: Vec2| #[trigger] entry_map(t).contains_key(k) implies entry_map(t)[k] == entry_map(s).insert(v, e)[k] by {
        let j = ks.index_of(k);
        assert(ks[j] == k);
        if k == v {
            assert(j == i);
        } else {
            assert(j != i);
        }
    }
    assert(entry_map(t) =~= entry_map(s).insert(v, e));
}

proof fn lemma_entry_map_push(s: Seq<(Vec2, CharEntry)>, v: Vec2, e: CharEntry)
    requires
        entry_positions(s).no_duplicates(),
        !entry_positions(s).contains(v),
    ensures
        entry_positions(s.push((v, e))).no_duplicates(),
        entry_map(s.push((v, e))) == entry_map(s).insert(v, e),
{
    let t = s.push((v, e));
    let ks = entry_positions(s);
    let kt = entry_positions(t);
    assert(kt == ks.push(v));
    assert forall|a: int, b: int| 0 <= a < kt.len() && 0 <= b < kt.len() && a != b implies kt[a] != kt[b] by {
        if a < ks.len() && b < ks.len() {
            assert(kt[a] == ks[a] && kt[b] == ks[b]);
        } else if a < ks.len() {
            assert(kt[a] == ks[a]);
        } else if b < ks.len() {
            assert(kt[b] == ks[b]);
        }
    }
    assert forall|k: Vec2| #[trigger] entry_map(t).contains_key(k) implies entry_map(t)[k] == entry_map(s).insert(v, e)[k] by {
        let j = kt.index_of(k);
        assert(kt[j] == k);
        if k == v {
            assert(kt[ks.len() as int] == v);
            assert(j == ks.len());
        } else {
            assert(j < ks.len());
            assert(ks[j] == k);
            let j2 = ks.index_of(k);
            assert(ks[j2] == k);
            assert(j2 == j);
        }
    }
    assert forall|k: Vec2| entry_map(s).insert(v, e).contains_key(k) implies #[trigger] entry_map(t).contains_key(k) by {
        if k != v {
            let j = ks.index_of(k);
            assert(kt[j] == k);
        } else {
            assert(kt[ks.len() as int] == v);
        }
    }
    assert(entry_map(t) =~= entry_map(s).insert(v, e));
}

proof fn lemma_entry_map_len(s: Seq<(Vec2, CharEntry)>)
    requires
        entry_positions(s).no_duplicates(),
    ensures
        entry_map(s).dom().len() == s.len(),
{
    let ks = entry_positions(s);
    ks.unique_seq_to_set();
    assert(ks.len() == s.len());
    assert(entry_map(s).dom() =~= ks.to_set());
}

/// Whether some entry of `s` whose shifted position lies in `0..width` by
/// `0..height` lands on `k` when drawn from `base`.
pub open spec fn lands_on(base: Vec2, offset: Vec2, s: Seq<(Vec2, CharEntry)>, b: Bounds, k: Vec2) -> bool {
    exists|i: int|
        0 <= i < s.len() && 0 <= (#[trigger] s[i]).0.x + offset.x < (b.width as isize) && 0
            <= s[i].0.y + offset.y < (b.height as isize) && k == (Vec2 {
            x: (base.x + offset.x + s[i].0.x) as isize,
            y: (base.y + offset.y + s[i].0.y) as isize,
        })
}

/// Drawing a canvas writes each entry whose shifted position
/// `(x + offset.x, y + offset.y)` lies in `0..width` by `0..height` at the
/// cursor plus that shifted position, and leaves every other cell as it was.
pub proof fn lemma_canvas_paints_entries_in_bounds(
    m: Map<Vec2, CharEntry>,
    base: Vec2,
    offset: Vec2,
    s: Seq<(Vec2, CharEntry)>,
    b: Bounds,
)
    requires
        entry_positions(s).no_duplicates(),
        forall|i: int|
            0 <= i < s.len() ==> fits_isize(base.x + offset.x + (#[trigger] s[i]).0.x) && fits_isize(
                base.y + offset.y + s[i].0.y,
            ),
    ensures
        forall|i: int|
            0 <= i < s.len() && 0 <= (#[trigger] s[i]).0.x + offset.x < (b.width as isize) && 0
                <= s[i].0.y + offset.y < (b.height as isize) ==> {
                let k = Vec2 {
                    x: (base.x + offset.x + s[i].0.x) as isize,
                    y: (base.y + offset.y + s[i].0.y) as isize,
                };
                &&& canvas_paint(m, base, offset, s, b).contains_key(k)
                &&& canvas_paint(m, base, offset, s, b)[k] == s[i].1
            },
        forall|k: Vec2|
            !#[trigger] lands_on(base, offset, s, b, k) ==> {
                &&& canvas_paint(m, base, offset, s, b).contains_key(k) == m.contains_key(k)
                &&& m.contains_key(k) ==> canvas_paint(m, base, offset, s, b)[k] == m[k]
            },
    decreases s.len(),
{
    if s.len() > 0 {
        let t = s.drop_last();
        let n = s.len() - 1;
        let ks = entry_positions(s);
        assert(entry_positions(t).no_duplicates()) by {
            assert forall|i: int, j: int|
                0 <= i < entry_positions(t).len() && 0 <= j < entry_positions(t).len() && i != j
                    implies entry_positions(t)[i] != entry_positions(t)[j] by {
                assert(entry_positions(t)[i] == ks[i] && entry_positions(t)[j] == ks[j]);
            }
        }
        assert forall|i: int| 0 <= i < t.len() implies fits_isize(base.x + offset.x + (
        #[trigger] t[i]).0.x) && fits_isize(base.y + offset.y + t[i].0.y) by {
            assert(t[i] == s[i]);
        }
        lemma_canvas_paints_entries_in_bounds(m, base, offset, t, b);
        let m2 = canvas_paint(m, base, offset, t, b);
        assert(canvas_paint(m, base, offset, s, b) == (if canvas_in_bounds(s.last().0, offset, b) {
            m2.insert(Vec2 {
                x: (base.x + offset.x + s.last().0.x) as isize,
                y: (base.y + offset.y + s.last().0.y) as isize,
            }, s.last().1)
        } else {
            m2
        }));
        let e = s.last();
        let ke = Vec2 {
            x: (base.x + offset.x + e.0.x) as isize,
            y: (base.y + offset.y + e.0.y) as isize,
        };
        assert(e == s[n]);
        assert forall|i: int|
            0 <= i < s.len() && 0 <= (#[trigger] s[i]).0.x + offset.x < (b.width as isize) && 0 <= s[i].0.y
                + offset.y < (b.height as isize) implies {
            let k = Vec2 {
                x: (base.x + offset.x + s[i].0.x) as isize,
                y: (base.y + offset.y + s[i].0.y) as isize,
            };
            &&& canvas_paint(m, base, offset, s, b).contains_key(k)
            &&& canvas_paint(m, base, offset, s, b)[k] == s[i].1
        } by {
            if i < n {
                assert(t[i] == s[i]);
                assert(ks[i] == s[i].0 && ks[n] == s[n].0);
                assert(s[i].0 != s[n].0);
            }
        }
        assert forall|k: Vec2| !#[trigger] lands_on(base, offset, s, b, k) implies {
            &&& canvas_paint(m, base, offset, s, b).contains_key(k) == m.contains_key(k)
            &&& m.contains_key(k) ==> canvas_paint(m, base, offset, s, b)[k] == m[k]
        } by {
            if lands_on(base, offset, t, b, k) {
                let i = choose|i: int|
                    0 <= i < t.len() && 0 <= (#[trigger] t[i]).0.x + offset.x < (b.width as isize)
                        && 0 <= t[i].0.y + offset.y < (b.height as isize) && k == (Vec2 {
                        x: (base.x + offset.x + t[i].0.x) as isize,
                        y: (base.y + offset.y + t[i].0.y) as isize,
                    });
                assert(t[i] == s[i]);
                assert(lands_on(base, offset, s, b, k));
            }
            assert(m2.contains_key(k) == m.contains_key(k));
            assert(m.contains_key(k) ==> m2[k] == m[k]);
            if canvas_in_bounds(e.0, offset, b) {
                assert(0 <= s[n].0.x + offset.x < (b.width as isize));
                if k == ke {
                    assert(lands_on(base, offset, s, b, k));
                }
            }
        }
    } else {
        assert(canvas_paint(m, base, offset, s, b) == m);
    }
}


/// Adding the bold or underline flag (as `with_bold` and `with_underline`
/// do) makes the style request that effect, and every effect requested
/// before is still requested, so those two setters can be chained.
pub proof fn lemma_adding_flag_keeps_styles(flags: u32, mask: u32)
    requires
        mask == BOLD_MASK || mask == UNDERLINE_MASK,
    ensures
        flag_set(flags | mask, mask),
        flag_set(flags, BOLD_MASK) ==> flag_set(flags | mask, BOLD_MASK),
        flag_set(flags, UNDERLINE_MASK) ==> flag_set(flags | mask, UNDERLINE_MASK),
        flag_set(flags, REVERSE_VIDEO_MASK) ==> flag_set(flags | mask, REVERSE_VIDEO_MASK),
{
    assert((mask == 1u32 || mask == 2u32) ==> ((flags | mask) & mask != 0 && (flags & 1u32 != 0
        ==> (flags | mask) & 1u32 != 0) && (flags & 2u32 != 0 ==> (flags | mask) & 2u32 != 0) && (
    flags & 4u32 != 0 ==> (flags | mask) & 4u32 != 0))) by (bit_vector);
}

/// Reverse video replaces the flags: whatever was set before, the style then
/// asks for reverse video only.
pub proof fn lemma_reverse_video_requests_it_alone(p: Props)
    ensures
        style_requests((Props { flags: REVERSE_VIDEO_MASK, ..p }).flags) == seq![
            TerminalRequest::ReverseVideo,
        ],
{
    assert(4u32 & 1u32 == 0 && 4u32 & 2u32 == 0 && 4u32 & 4u32 != 0) by (bit_vector);
}

} // verus!
