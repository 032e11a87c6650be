use vstd::prelude::*;
use crate::components::char_canvas::{CharEntry, Props, entry_map, plain_props, REVERSE_VIDEO_MASK};
use crate::point::{Bounds, Vec2, trunc_div};
use crate::terminal::Terminal;
use crate::terminal::terminal_dims::TerminalDims;

pub mod gap_buffer;
pub mod selection_tree;

verus! {

/// Builds a `TextEditor`; `B` is the callback that yields the text to show,
/// `L` the callback that fills in the line-number column.
pub struct TextEditorBuilder<B, L> {
    use_buf: Option<B>,
    line_counter: Option<L>,
}

impl<B, L> TextEditorBuilder<B, L> {
    pub closed spec fn buffer_fn(&self) -> Option<B> {
        self.use_buf
    }

    pub closed spec fn line_counter_fn(&self) -> Option<L> {
        self.line_counter
    }

    pub fn new() -> (b: TextEditorBuilder<B, L>)
        ensures
            b.buffer_fn() is None,
            b.line_counter_fn() is None,
    {
        TextEditorBuilder { use_buf: None, line_counter: None }
    }

    pub fn use_buffer(self, f: B) -> (b: TextEditorBuilder<B, L>)
        ensures
            b.buffer_fn() == Some(f),
            b.line_counter_fn() == self.line_counter_fn(),
    {
        TextEditorBuilder { use_buf: Some(f), line_counter: self.line_counter }
    }

    pub fn with_line_counter(self, f: L) -> (b: TextEditorBuilder<B, L>)
        ensures
            b.buffer_fn() == self.buffer_fn(),
            b.line_counter_fn() == Some(f),
    {
        TextEditorBuilder { use_buf: self.use_buf, line_counter: Some(f) }
    }

    /// The editor, with its drawing state at the origin; a callback that was
    /// not given stays absent (no text, blank line numbers).
    pub fn finalize(self) -> (e: TextEditor<B, L>)
        ensures
            e.buffer_fn() == self.buffer_fn(),
            e.line_counter_fn() == self.line_counter_fn(),
            e.coord() == (Vec2 { x: 0, y: 0 }),
            e.position() == (Vec2 { x: 0, y: 0 }),
            e.line_offset() == 0,
    {
        TextEditor {
            use_buf: self.use_buf,
            line_counter: self.line_counter,
            position: Vec2::new(0, 0),
            coord: Vec2::new(0, 0),
            delta: Vec2::new(0, 0),
            line_offset: 0,
        }
    }
}

/// The editing modes of the text editor.
#[derive(Clone, Copy, Debug, PartialEq, Eq, Structural)]
pub enum TextEditMode {
    Normal,
    Insert,
    Visual,
    VisualLine,
}

/// A text editor view: line numbers in the first seven columns, the text
/// after them, long lines wrapped, and a cursor block at the end.
pub struct TextEditor<B, L> {
    use_buf: Option<B>,
    line_counter: Option<L>,
    position: Vec2,
    coord: Vec2,
    delta: Vec2,
    line_offset: usize,
}

/// Where the editor's pen stands while laying out the text, and the cells it
/// has written so far (column, row, entry), in order.
pub struct Pen {
    pub x: int,
    pub y: int,
    pub line: int,
    pub cells: Seq<(int, int, CharEntry)>,
}

/// The block drawn at the end of the text.
pub open spec fn insert_cursor() -> CharEntry {
    CharEntry { c: ' ', props: Props { flags: REVERSE_VIDEO_MASK, ..plain_props() } }
}

/// `c` in the plain style.
pub open spec fn plain(c: char) -> CharEntry {
    CharEntry { c, props: plain_props() }
}

/// Writes `e` where the pen stands and moves one column right.
pub open spec fn put(p: Pen, e: CharEntry) -> Pen {
    Pen { x: p.x + 1, cells: p.cells.push((p.x, p.y, e)), ..p }
}

/// Writes the characters of `s` one after the other.
pub open spec fn put_chars(p: Pen, s: Seq<char>) -> Pen
    decreases s.len(),
{
    if s.len() == 0 {
        p
    } else {
        put(put_chars(p, s.drop_last()), plain(s.last()))
    }
}

/// Writes a line number (`digits`) in the first columns of the pen's row,
/// then moves to column 7.
pub open spec fn line_number(p: Pen, digits: Seq<char>) -> Pen {
    Pen { x: 7, ..put_chars(Pen { x: 0, ..p }, digits) }
}

/// At or past the right edge, continues on the next row after an indent
/// ending in a wrap mark; otherwise leaves the pen where it is.
pub open spec fn wrap(p: Pen, width: int) -> Pen {
    if p.x >= width {
        Pen {
            x: 7,
            ..put(put_chars(Pen { x: 0, y: p.y + 1, ..p }, seq![' ', ' ', ' ', ' ', ' ']), plain('↪'))
        }
    } else {
        p
    }
}

/// Lays out one character: a newline starts the next row with its line
/// number; any other character is wrapped if needed and written.
pub open spec fn step(p: Pen, c: char, width: int, counters: Seq<[char; 6]>) -> Pen {
    if c == '\n' {
        line_number(Pen { line: p.line + 1, y: p.y + 1, ..p }, counters[p.line + 1]@)
    } else {
        put(wrap(p, width), plain(c))
    }
}

/// Lays out `text` character by character, stopping after the character that
/// takes the pen below row `vert + 1`.
pub open spec fn run(p: Pen, text: Seq<char>, width: int, vert: int, counters: Seq<[char; 6]>) -> Pen
    decreases text.len(),
{
    if text.len() == 0 {
        p
    } else {
        let q = step(p, text[0], width, counters);
        if q.y - 1 >= vert {
            q
        } else {
            run(q, text.drop_first(), width, vert, counters)
        }
    }
}

/// The editor's whole layout of `text` in `bounds`: the first line number,
/// the text (down to half the height), then the cursor block; `counters[i]`
/// is the line-number column for line `i`.
pub open spec fn editor_layout(text: Seq<char>, bounds: Bounds, counters: Seq<[char; 6]>) -> Pen {
    let width = (bounds.width as isize) as int;
    let vert = trunc_div((bounds.height as isize) as int, 2);
    let p0 = line_number(Pen { x: 0, y: 0, line: 0, cells: seq![] }, counters[0]@);
    put(wrap(run(p0, text, width, vert, counters), width), insert_cursor())
}

/// Whether the cell at (`x`, `y`) lies within `b`.
pub open spec fn in_bounds(x: int, y: int, b: Bounds) -> bool {
    0 <= x < (b.width as isize) && 0 <= y < (b.height as isize)
}

/// `m` with the cells of `cells` that lie within `b` written over it, each at
/// its position shifted by `base`.
pub open spec fn paint(m: Map<Vec2, CharEntry>, base: Vec2, cells: Seq<(int, int, CharEntry)>, b: Bounds) -> Map<
    Vec2,
    CharEntry,
>
    decreases cells.len(),
{
    if cells.len() == 0 {
        m
    } else {
        let m2 = paint(m, base, cells.drop_last(), b);
        let c = cells.last();
        if in_bounds(c.0, c.1, b) {
            m2.insert(Vec2 { x: (base.x + c.0) as isize, y: (base.y + c.1) as isize }, c.2)
        } else {
            m2
        }
    }
}

/// The last cell of `cells` that lies within `b`, or the origin.
pub open spec fn last_painted(cells: Seq<(int, int, CharEntry)>, b: Bounds) -> (int, int)
    decreases cells.len(),
{
    if cells.len() == 0 {
        (0, 0)
    } else if in_bounds(cells.last().0, cells.last().1, b) {
        (cells.last().0, cells.last().1)
    } else {
        last_painted(cells.drop_last(), b)
    }
}

/// How many newlines `s` holds.
pub open spec fn count_newlines(s: Seq<char>) -> nat
    decreases s.len(),
{
    if s.len() == 0 {
        0
    } else {
        count_newlines(s.drop_last()) + (if s.last() == '\n' { 1nat } else { 0nat })
    }
}

/// What stays fixed while the editor draws: where drawing started, what the
/// frame held then, the area, and the terminal's other state.
pub struct DrawEnv {
    pub base: Vec2,
    pub frame: Map<Vec2, CharEntry>,
    pub bounds: Bounds,
    pub saved: Seq<Vec2>,
    pub previous: Seq<(Vec2, CharEntry)>,
    pub dims: TerminalDims,
}

/// The cells that the pen `p` has written are on the terminal, and the
/// editor's drawing state matches the pen.
pub open spec fn drawn<B, L>(ed: TextEditor<B, L>, t: Terminal, p: Pen, env: DrawEnv) -> bool {
    &&& ed.coord().x == p.x && ed.coord().y == p.y
    &&& ed.line_offset() == p.line
    &&& ed.position().x == last_painted(p.cells, env.bounds).0
    &&& ed.position().y == last_painted(p.cells, env.bounds).1
    &&& t.cursor().x == env.base.x + ed.position().x
    &&& t.cursor().y == env.base.y + ed.position().y
    &&& entry_map(t.frame()) == paint(env.frame, env.base, p.cells, env.bounds)
    &&& t.saved() == env.saved
    &&& t.previous() == env.previous
    &&& t.dims() == env.dims
    &&& env.base.x + (env.bounds.width as isize) <= isize::MAX
    &&& env.base.y + (env.bounds.height as isize) <= isize::MAX
}

/// A painted position is within the area.
proof fn lemma_last_painted_in_bounds(cells: Seq<(int, int, CharEntry)>, b: Bounds)
    ensures
        last_painted(cells, b) == (0int, 0int) || in_bounds(
            last_painted(cells, b).0,
            last_painted(cells, b).1,
            b,
        ),
    decreases cells.len(),
{
    if cells.len() > 0 {
        lemma_last_painted_in_bounds(cells.drop_last(), b);
    }
}

impl<B, L> TextEditor<B, L> {
    pub closed spec fn buffer_fn(&self) -> Option<B> {
        self.use_buf
    }

    pub closed spec fn line_counter_fn(&self) -> Option<L> {
        self.line_counter
    }

    /// Where the pen stands, relative to where drawing started.
    pub closed spec fn coord(&self) -> Vec2 {
        self.coord
    }

    /// Where the terminal cursor was last moved, relative to where drawing
    /// started.
    pub closed spec fn position(&self) -> Vec2 {
        self.position
    }

    /// The number of the line being drawn.
    pub closed spec fn line_offset(&self) -> usize {
        self.line_offset
    }

    /// The callback that yields the text, if one was given.
    pub fn use_buf(&self) -> (f: &Option<B>)
        ensures
            *f == self.buffer_fn(),
    {
        &self.use_buf
    }

    /// The callback that fills in line numbers, if one was given.
    pub fn line_counter(&self) -> (f: &Option<L>)
        ensures
            *f == self.line_counter_fn(),
    {
        &self.line_counter
    }

    fn reset_coords(&mut self, terminal: &mut Terminal)
        ensures
            final(self).coord() == (Vec2 { x: 0, y: 0 }),
            final(self).position() == (Vec2 { x: 0, y: 0 }),
            final(self).line_offset() == 0,
            final(self).buffer_fn() == old(self).buffer_fn(),
            final(self).line_counter_fn() == old(self).line_counter_fn(),
            final(terminal).cursor() == old(terminal).cursor(),
            final(terminal).frame() == old(terminal).frame(),
            final(terminal).saved() == old(terminal).saved(),
            final(terminal).previous() == old(terminal).previous(),
            final(terminal).dims() == old(terminal).dims(),
    {
        self.position = Vec2::new(0, 0);
        self.delta = Vec2::new(0, 0);
        terminal.move_relative(self.delta);
        self.coord = Vec2::new(0, 0);
        self.line_offset = 0;
    }

    /// Writes `ce` at the pen's cell if it lies within the area, then moves
    /// the pen one column right.
    fn update_term(
        &mut self,
        terminal: &mut Terminal,
        bounds: &Bounds,
        ce: CharEntry,
        Ghost(p): Ghost<Pen>,
        Ghost(env): Ghost<DrawEnv>,
    )
        requires
            drawn(*old(self), *old(terminal), p, env),
            env.bounds == *bounds,
            isize::MIN <= p.x < isize::MAX,
            isize::MIN <= p.y <= isize::MAX,
        ensures
            drawn(*final(self), *final(terminal), put(p, ce), env),
            final(self).buffer_fn() == old(self).buffer_fn(),
            final(self).line_counter_fn() == old(self).line_counter_fn(),
    {
        proof {
            lemma_last_painted_in_bounds(p.cells, env.bounds);
        }
        if self.coord.is_within_bounds(bounds) {
            let delta = self.coord - self.position;
            self.delta = delta;
            self.position.add_assign(delta);
            terminal.move_relative(delta);
            terminal.set_entry(ce);
            assert(put(p, ce).cells.drop_last() == p.cells);
        } else {
            assert(put(p, ce).cells.drop_last() == p.cells);
        }
        self.coord.add_assign(Vec2::new(1, 0));
    }

    /// Writes the line number `line_count` at the start of the pen's row and
    /// moves the pen to column 7.
    fn render_line_counter(
        &mut self,
        terminal: &mut Terminal,
        bounds: &Bounds,
        line_count: &[char; 6],
        Ghost(p): Ghost<Pen>,
        Ghost(env): Ghost<DrawEnv>,
    )
        requires
            drawn(*old(self), *old(terminal), p, env),
            env.bounds == *bounds,
            isize::MIN <= p.y <= isize::MAX,
        ensures
            drawn(*final(self), *final(terminal), line_number(p, line_count@), env),
            final(self).buffer_fn() == old(self).buffer_fn(),
            final(self).line_counter_fn() == old(self).line_counter_fn(),
    {
        self.coord.set_x(0);
        let ghost mut q = Pen { x: 0, ..p };
        let ghost digits = line_count@;
        let mut k: usize = 0;
        while k < 6
            invariant
                k <= 6,
                digits.len() == 6,
                digits == line_count@,
                drawn(*self, *terminal, q, env),
                q == put_chars(Pen { x: 0, ..p }, digits.take(k as int)),
                q.x == k,
                q.y == p.y,
                isize::MIN <= p.y <= isize::MAX,
                env.bounds == *bounds,
                self.buffer_fn() == old(self).buffer_fn(),
                self.line_counter_fn() == old(self).line_counter_fn(),
            decreases 6 - k,
        {
            let c = line_count[k];
            proof {
                assert(digits.take(k + 1).drop_last() == digits.take(k as int));
            }
            self.update_term(terminal, bounds, CharEntry::new(c), Ghost(q), Ghost(env));
            proof {
                q = put(q, plain(c));
            }
            k = k + 1;
        }
        proof {
            assert(digits.take(6) == digits);
        }
        self.coord.set_x(7);
    }

    /// At or past the right edge of the area, continues on the next row after
    /// an indent ending in a wrap mark.
    fn handle_wrapping(
        &mut self,
        terminal: &mut Terminal,
        bounds: &Bounds,
        Ghost(p): Ghost<Pen>,
        Ghost(env): Ghost<DrawEnv>,
    )
        requires
            drawn(*old(self), *old(terminal), p, env),
            env.bounds == *bounds,
            isize::MIN <= p.x <= isize::MAX,
            isize::MIN <= p.y < isize::MAX,
        ensures
            drawn(*final(self), *final(terminal), wrap(p, (bounds.width as isize) as int), env),
            final(self).buffer_fn() == old(self).buffer_fn(),
            final(self).line_counter_fn() == old(self).line_counter_fn(),
    {
        let wrap_bound = *bounds.width() as isize;
        if self.coord.x() >= &wrap_bound {
            self.coord.add_assign(Vec2::new(0, 1));
            self.coord.set_x(0);
            let ghost mut q = Pen { x: 0, y: p.y + 1, ..p };
            let ghost spaces = seq![' ', ' ', ' ', ' ', ' '];
            let mut k: usize = 0;
            while k < 5
                invariant
                    k <= 5,
                    spaces == seq![' ', ' ', ' ', ' ', ' '],
                    drawn(*self, *terminal, q, env),
                    q == put_chars(Pen { x: 0, y: p.y + 1, ..p }, spaces.take(k as int)),
                    q.x == k,
                    q.y == p.y + 1,
                    isize::MIN <= p.y < isize::MAX,
                    env.bounds == *bounds,
                    self.buffer_fn() == old(self).buffer_fn(),
                    self.line_counter_fn() == old(self).line_counter_fn(),
                decreases 5 - k,
            {
                proof {
                    assert(spaces.take(k + 1).drop_last() == spaces.take(k as int));
                    assert(spaces.take(k + 1).last() == ' ');
                }
                self.update_term(terminal, bounds, CharEntry::new(' '), Ghost(q), Ghost(env));
                proof {
                    q = put(q, plain(' '));
                }
                k = k + 1;
            }
            proof {
                assert(spaces.take(5) == spaces);
            }
            self.update_term(terminal, bounds, CharEntry::new('↪'), Ghost(q), Ghost(env));
            self.coord.set_x(7);
        }
    }

    /// Draws `buf` on `terminal` within `bounds`, starting at the cursor:
    /// `counters[i]` is the line-number column drawn for line `i`.
    pub fn render_insert_mode(
        &mut self,
        terminal: &mut Terminal,
        bounds: &Bounds,
        buf: &str,
        counters: &Vec<[char; 6]>,
    )
        requires
            buf@.len() + 16 <= isize::MAX,
            count_newlines(buf@) < counters@.len(),
            old(terminal).cursor().x + (bounds.width as isize) <= isize::MAX,
            old(terminal).cursor().y + (bounds.height as isize) <= isize::MAX,
        ensures
            entry_map(final(terminal).frame()) == paint(
                entry_map(old(terminal).frame()),
                old(terminal).cursor(),
                editor_layout(buf@, *bounds, counters@).cells,
                *bounds,
            ),
            final(terminal).cursor().x == old(terminal).cursor().x + last_painted(
                editor_layout(buf@, *bounds, counters@).cells,
                *bounds,
            ).0,
            final(terminal).cursor().y == old(terminal).cursor().y + last_painted(
                editor_layout(buf@, *bounds, counters@).cells,
                *bounds,
            ).1,
            final(terminal).saved() == old(terminal).saved(),
            final(terminal).previous() == old(terminal).previous(),
            final(terminal).dims() == old(terminal).dims(),
            final(self).buffer_fn() == old(self).buffer_fn(),
            final(self).line_counter_fn() == old(self).line_counter_fn(),
    {
        let ghost env = DrawEnv {
            base: terminal.cursor(),
            frame: entry_map(terminal.frame()),
            bounds: *bounds,
            saved: terminal.saved(),
            previous: terminal.previous(),
            dims: terminal.dims(),
        };
        let ghost text = buf@;
        let ghost width: int = (bounds.width as isize) as int;
        self.reset_coords(terminal);
        let ghost mut p = Pen { x: 0, y: 0, line: 0, cells: seq![] };
        assert(drawn(*self, *terminal, p, env));
        proof {
            lemma_put_chars(Pen { x: 0, ..p }, counters@[0]@);
            assert(text.take(0) == Seq::<char>::empty());
        }
        let n_counters = counters.len();
        self.render_line_counter(terminal, bounds, &counters[0], Ghost(p), Ghost(env));
        proof {
            p = line_number(p, counters@[0]@);
        }
        let vert_bound = *bounds.height() as isize / 2;
        assert(vert_bound == trunc_div((bounds.height as isize) as int, 2));
        let ghost target = run(p, text, width, vert_bound as int, counters@);
        broadcast use vstd::string::axiom_spec_iter, vstd::string::next_postcondition;
        let mut chars = buf.chars();
        let ghost mut done_count: int = 0;
        loop
            invariant_except_break
                run(p, vstd::std_specs::iter::IteratorSpec::remaining(&chars), width, vert_bound as int, counters@) == target,
                vstd::std_specs::iter::IteratorSpec::remaining(&chars) == text.skip(done_count),
            invariant
                0 <= done_count <= text.len(),
                drawn(*self, *terminal, p, env),
                0 <= p.x <= 8 + done_count,
                0 <= p.y <= done_count,
                p.line == count_newlines(text.take(done_count)),
                count_newlines(text) < counters@.len(),
                n_counters == counters@.len(),
                text.len() + 16 <= isize::MAX,
                env.bounds == *bounds,
                width == (bounds.width as isize) as int,
                self.buffer_fn() == old(self).buffer_fn(),
                self.line_counter_fn() == old(self).line_counter_fn(),
            ensures
                p == target,
            decreases text.len() - done_count,
        {
            let ghost rest = vstd::std_specs::iter::IteratorSpec::remaining(&chars);
            match chars.next() {
                None => {
                    break ;
                },
                Some(c) => {
                    proof {
                        assert(rest.len() > 0);
                        assert(c == text[done_count]);
                        assert(text.take(done_count + 1).drop_last() == text.take(done_count));
                        lemma_count_newlines_prefix(text, done_count + 1);
                        lemma_step(p, c, width, counters@);
                    }
                    if c == '\n' {
                        self.line_offset = self.line_offset + 1;
                        self.coord.add_assign(Vec2::new(0, 1));
                        let ghost q = Pen { line: p.line + 1, y: p.y + 1, ..p };
                        assert(drawn(*self, *terminal, q, env));
                        let lo = self.line_offset;
                        self.render_line_counter(terminal, bounds, &counters[lo], Ghost(q), Ghost(env));
                        proof {
                            lemma_put_chars(Pen { x: 0, ..q }, counters@[q.line]@);
                            p = line_number(q, counters@[q.line]@);
                        }
                    } else {
                        self.handle_wrapping(terminal, bounds, Ghost(p), Ghost(env));
                        proof {
                            lemma_wrap(p, width);
                            p = wrap(p, width);
                        }
                        self.update_term(terminal, bounds, CharEntry::new(c), Ghost(p), Ghost(env));
                        proof {
                            p = put(p, plain(c));
                        }
                    }
                    proof {
                        done_count = done_count + 1;
                        assert(vstd::std_specs::iter::IteratorSpec::remaining(&chars) == text.skip(done_count));
                    }
                    if *self.coord.y() - 1 >= vert_bound {
                        break ;
                    }
                },
            }
        }
        self.handle_wrapping(terminal, bounds, Ghost(p), Ghost(env));
        proof {
            lemma_wrap(p, width);
            p = wrap(p, width);
        }
        self.update_term(
            terminal,
            bounds,
            CharEntry::new(' ').with_props(Props::new().with_reverse_video()),
            Ghost(p),
            Ghost(env),
        );
    }
}

proof fn lemma_put_chars(p: Pen, s: Seq<char>)
    ensures
        put_chars(p, s).x == p.x + s.len(),
        put_chars(p, s).y == p.y,
        put_chars(p, s).line == p.line,
    decreases s.len(),
{
    if s.len() > 0 {
        lemma_put_chars(p, s.drop_last());
    }
}

proof fn lemma_wrap(p: Pen, width: int)
    ensures
        p.x >= width ==> wrap(p, width).x == 7 && wrap(p, width).y == p.y + 1,
        p.x < width ==> wrap(p, width) == p,
        wrap(p, width).line == p.line,
{
    lemma_put_chars(Pen { x: 0, y: p.y + 1, ..p }, seq![' ', ' ', ' ', ' ', ' ']);
}

proof fn lemma_step(p: Pen, c: char, width: int, counters: Seq<[char; 6]>)
    requires
        0 <= p.x,
        0 <= p.y,
    ensures
        0 <= step(p, c, width, counters).x <= (if p.x + 1 > 8 { p.x + 1 } else { 8 }),
        p.y <= step(p, c, width, counters).y <= p.y + 1,
        step(p, c, width, counters).line == p.line + (if c == '\n' { 1int } else { 0int }),
{
    lemma_wrap(p, width);
    if c == '\n' {
        let q = Pen { line: p.line + 1, y: p.y + 1, ..p };
        lemma_put_chars(Pen { x: 0, ..q }, counters[p.line + 1]@);
    }
}

proof fn lemma_count_newlines_prefix(s: Seq<char>, n: int)
    requires
        0 < n <= s.len(),
    ensures
        count_newlines(s.take(n)) == count_newlines(s.take(n - 1)) + (if s[n - 1] == '\n' {
            1nat
        } else {
            0nat
        }),
        count_newlines(s.take(n)) <= count_newlines(s),
    decreases s.len() - n,
{
    assert(s.take(n).drop_last() == s.take(n - 1));
    if n < s.len() {
        lemma_count_newlines_prefix(s, n + 1);
    } else {
        assert(s.take(n) == s);
    }
}

/// Whatever the text, the editor's last write is the cursor block, put right
/// after the last character laid out (or on a new row when that character
/// reached the right edge).
pub proof fn lemma_layout_ends_with_cursor(text: Seq<char>, bounds: Bounds, counters: Seq<[char; 6]>)
    ensures
        editor_layout(text, bounds, counters).cells.len() > 0,
        editor_layout(text, bounds, counters).cells.last().2 == insert_cursor(),
{
}

} // verus!
