use vstd::prelude::*;
use vstd::std_specs::convert::FromSpecImpl;
use std::collections::VecDeque;

verus! {

/// The number of elements `v` can hold without reallocating.
///
/// Calls `VecDeque::capacity`. Its documentation promises room for at least
/// the elements already stored, and that is all the contract claims; the
/// exact figure depends on the allocator and is left unsaid.
#[verifier::external_body]
fn deque_capacity(v: &VecDeque<char>) -> (cap: usize)
    ensures
        cap >= v@.len(),
{
    v.capacity()
}

/// A mutable reference to the element at `index`, if there is one.
///
/// Calls `VecDeque::get_mut`, documented to return `None` when `index` is out
/// of bounds and the element at `index` otherwise, and it never panics. The
/// contract claims exactly that: writing through the reference changes that
/// element and nothing else.
#[verifier::external_body]
fn deque_get_mut(v: &mut VecDeque<char>, index: usize) -> (r: Option<&mut char>)
    ensures
        index < old(v)@.len() ==> r is Some && *r.unwrap() == old(v)@[index as int] && final(v)@
            == old(v)@.update(index as int, *final(r.unwrap())),
        index >= old(v)@.len() ==> r is None && final(v)@ == old(v)@,
    no_unwind
{
    v.get_mut(index)
}

/// Moves up to `offset` characters from the front of `r` to the back of `l`
/// (the gap moves right), stopping when `r` runs out.
fn shift_left(l: &mut VecDeque<char>, r: &mut VecDeque<char>, offset: usize)
    ensures
        final(l)@ + final(r)@ == old(l)@ + old(r)@,
        final(l)@.len() == (if old(l)@.len() + offset <= old(l)@.len() + old(r)@.len() {
            old(l)@.len() + offset
        } else {
            (old(l)@.len() + old(r)@.len()) as int
        }),
{
    let ghost whole = l@ + r@;
    let ghost l0 = l@.len();
    let mut dx: usize = 0;
    while dx < offset && r.len() > 0
        invariant
            l@ + r@ == whole,
            dx <= offset,
            l@.len() == l0 + dx,
        decreases offset - dx,
    {
        let ghost before = l@ + r@;
        if let Some(c) = r.pop_front() {
            l.push_back(c);
            assert(l@ + r@ =~= before);
        }
        dx = dx + 1;
    }
}

/// Moves up to `offset` characters from the back of `l` to the front of `r`
/// (the gap moves left), stopping when `l` runs out.
fn shift_right(l: &mut VecDeque<char>, r: &mut VecDeque<char>, offset: usize)
    ensures
        final(l)@ + final(r)@ == old(l)@ + old(r)@,
        final(l)@.len() == (if offset <= old(l)@.len() {
            old(l)@.len() - offset
        } else {
            0
        }),
{
    let ghost whole = l@ + r@;
    let ghost l0 = l@.len();
    let mut dx: usize = 0;
    while dx < offset && l.len() > 0
        invariant
            l@ + r@ == whole,
            dx <= offset,
            l@.len() + dx == l0,
        decreases offset - dx,
    {
        let ghost before = l@ + r@;
        if let Some(c) = l.pop_back() {
            r.push_front(c);
            assert(l@ + r@ =~= before);
        }
        dx = dx + 1;
    }
}

/// A text buffer with a movable gap: the characters before the gap are kept
/// in `l_buf`, the ones after it in `r_buf`, so that inserting at the gap
/// only touches the ends of the two deques.
#[derive(Debug)]
pub struct GapBuffer {
    l_buf: VecDeque<char>,
    r_buf: VecDeque<char>,
}

impl View for GapBuffer {
    type V = Seq<char>;

    /// The text held, in order; the gap takes no room in it.
    closed spec fn view(&self) -> Seq<char> {
        self.l_buf@ + self.r_buf@
    }
}

/// What `get` answers for the text `s` at `idx`.
pub open spec fn char_at(s: Seq<char>, idx: int) -> Option<char> {
    if 0 <= idx < s.len() {
        Some(s[idx])
    } else {
        None
    }
}

/// Where `insert(idx, c)` puts `c` in a text of length `len`: at `idx`, or
/// at the end when `idx` lies beyond it.
pub open spec fn insert_position(len: nat, idx: int) -> int {
    if idx < len {
        idx
    } else {
        len as int
    }
}

impl GapBuffer {
    /// The buffer's length fits in a `usize`.
    #[verifier::type_invariant]
    pub closed spec fn wf(&self) -> bool {
        self.l_buf@.len() + self.r_buf@.len() <= usize::MAX
    }

    /// The position of the gap: the number of characters in front of it.
    spec fn gap_offset(&self) -> nat {
        self.l_buf@.len()
    }

    pub fn new() -> (b: GapBuffer)
        ensures
            b@ == Seq::<char>::empty(),
    {
        GapBuffer { l_buf: VecDeque::new(), r_buf: VecDeque::new() }
    }

    /// A buffer holding the characters of `value`, with the gap at the front.
    pub fn from_string(value: String) -> (b: GapBuffer)
        ensures
            b@ == value@,
    {
        broadcast use vstd::string::axiom_spec_iter;
        let mut r_buf: VecDeque<char> = VecDeque::new();
        let chars = value.as_str().chars();
        assert(vstd::std_specs::iter::IteratorSpec::remaining(&chars) == value@);
        for c in it: chars
            invariant
                it.seq() == value@,
                r_buf@ == value@.take(it.index() as int),
        {
            r_buf.push_back(c);
            assert(it.seq().take(it.index() + 1) == it.seq().take(it.index() as int).push(c));
        }
        assert(value@.take(value@.len() as int) == value@);
        assert(r_buf@ == value@);
        proof {
            assert(r_buf@.len() == r_buf.len());
        }
        GapBuffer { l_buf: VecDeque::new(), r_buf }
    }

    fn current_offset(&self) -> (n: usize)
        ensures
            n == self.gap_offset(),
    {
        self.l_buf.len()
    }

    /// Inserts `c` at position `idx` (at the end when `idx` is past it),
    /// moving the gap there first.
    pub fn insert(&mut self, idx: usize, c: char)
        requires
            old(self)@.len() < usize::MAX,
        ensures
            final(self)@ == old(self)@.insert(insert_position(old(self)@.len(), idx as int), c),
            idx < old(self)@.len() ==> final(self)@ == old(self)@.insert(idx as int, c),
            idx >= old(self)@.len() ==> final(self)@ == old(self)@.push(c),
    {
        proof {
            use_type_invariant(&*self);
        }
        let mut l: VecDeque<char> = VecDeque::new();
        let mut r: VecDeque<char> = VecDeque::new();
        core::mem::swap(&mut self.l_buf, &mut l);
        core::mem::swap(&mut self.r_buf, &mut r);
        let ghost whole = l@ + r@;
        let cur = l.len();
        if idx < cur {
            shift_right(&mut l, &mut r, cur - idx);
        } else {
            shift_left(&mut l, &mut r, idx - cur);
        }
        let ghost ls = l@;
        let ghost rs = r@;
        r.push_front(c);
        assert(l@ + r@ =~= (ls + rs).insert(ls.len() as int, c));
        core::mem::swap(&mut self.l_buf, &mut l);
        core::mem::swap(&mut self.r_buf, &mut r);
        proof {
            lemma_insert_lands_at_index(whole, idx as int, c);
        }
    }

    /// The character at `idx`, if `idx` is within the text.
    pub fn get(&self, idx: usize) -> (r: Option<&char>)
        ensures
            match r {
                Some(x) => char_at(self@, idx as int) == Some(*x),
                None => char_at(self@, idx as int) is None,
            },
    {
        if idx < self.current_offset() {
            Some(&self.l_buf[idx])
        } else if idx - self.current_offset() < self.r_buf.len() {
            Some(&self.r_buf[idx - self.current_offset()])
        } else {
            None
        }
    }

    /// A mutable reference to the character at `idx`, if `idx` is within the
    /// text; writing through it changes that character only.
    pub fn get_mut(&mut self, idx: usize) -> (r: Option<&mut char>)
        ensures
            match r {
                Some(x) => {
                    &&& char_at(old(self)@, idx as int) == Some(*x)
                    &&& final(self)@ == old(self)@.update(idx as int, *final(x))
                },
                None => {
                    &&& char_at(old(self)@, idx as int) is None
                    &&& final(self)@ == old(self)@
                },
            },
    {
        proof {
            use_type_invariant(&*self);
        }
        if idx < self.current_offset() {
            deque_get_mut(&mut self.l_buf, idx)
        } else {
            let cur = self.current_offset();
            deque_get_mut(&mut self.r_buf, idx - cur)
        }
    }

    /// Room for characters without reallocating, in both halves together
    /// (at least the length of the text).
    pub fn capacity(&self) -> (cap: usize)
        ensures
            cap >= self@.len(),
    {
        proof {
            use_type_invariant(self);
        }
        deque_capacity(&self.l_buf).saturating_add(deque_capacity(&self.r_buf))
    }

    pub fn len(&self) -> (n: usize)
        ensures
            n == self@.len(),
    {
        proof {
            use_type_invariant(self);
        }
        self.l_buf.len() + self.r_buf.len()
    }

    /// A cursor over the whole text.
    pub fn iter<'a>(&'a self) -> (it: GapBufferIter<'a>)
        ensures
            it.text() == self@,
            it.front() == 0,
            it.back() == self@.len(),
    {
        GapBufferIter { buff: self, idx: 0, end: self.len() }
    }

    /// A cursor over the text from position `start` to its end.
    pub fn iter_from<'a>(&'a self, start: usize) -> (it: GapBufferIter<'a>)
        ensures
            it.text() == self@,
            it.front() == start,
            it.back() == self@.len(),
    {
        GapBufferIter { buff: self, idx: start, end: self.len() }
    }

    /// A cursor over the text from its start up to (not including) `end`.
    pub fn iter_to<'a>(&'a self, end: usize) -> (it: GapBufferIter<'a>)
        ensures
            it.text() == self@,
            it.front() == 0,
            it.back() == end,
    {
        GapBufferIter { buff: self, idx: 0, end }
    }
}

impl Clone for GapBuffer {
    /// A buffer with the same text and the gap in the same place.
    fn clone(&self) -> (b: GapBuffer)
        ensures
            b@ == self@,
    {
        proof {
            use_type_invariant(self);
        }
        let l_buf = self.l_buf.clone();
        let r_buf = self.r_buf.clone();
        assert(l_buf@ =~= self.l_buf@);
        assert(r_buf@ =~= self.r_buf@);
        GapBuffer { l_buf, r_buf }
    }
}

impl Default for GapBuffer {
    fn default() -> (b: GapBuffer)
        ensures
            b@ == Seq::<char>::empty(),
    {
        GapBuffer::new()
    }
}

impl From<String> for GapBuffer {
    fn from(value: String) -> (b: GapBuffer)
        ensures
            b@ == value@,
    {
        GapBuffer::from_string(value)
    }
}

impl FromSpecImpl<String> for GapBuffer {
    /// Two buffers with the same text may differ in their halves and
    /// capacities, so no single value is named here; `from` states the text.
    open spec fn obeys_from_spec() -> bool {
        false
    }

    open spec fn from_spec(value: String) -> GapBuffer {
        vstd::pervasive::arbitrary()
    }
}

impl core::ops::Index<usize> for GapBuffer {
    type Output = char;

    fn index(&self, index: usize) -> (c: &char)
        ensures
            *c == self@[index as int],
    {
        if index < self.current_offset() {
            &self.l_buf[index]
        } else {
            &self.r_buf[index - self.current_offset()]
        }
    }
}

impl vstd::std_specs::core::IndexSpecImpl<usize> for GapBuffer {
    open spec fn index_req(&self, index: &usize) -> bool {
        *index < self@.len()
    }
}

/// A double-ended cursor over part of a `GapBuffer`, yielding the characters
/// at positions `front..back`.
#[derive(Clone)]
pub struct GapBufferIter<'a> {
    buff: &'a GapBuffer,
    idx: usize,
    end: usize,
}

impl<'a> GapBufferIter<'a> {
    /// The text being walked.
    pub closed spec fn text(&self) -> Seq<char> {
        self.buff@
    }

    /// The position of the next character from the front.
    pub closed spec fn front(&self) -> usize {
        self.idx
    }

    /// One past the position of the next character from the back.
    pub closed spec fn back(&self) -> usize {
        self.end
    }

    /// The character at the front, advancing past it; `None` once the front
    /// meets the back or leaves the text.
    pub fn next(&mut self) -> (r: Option<&'a char>)
        ensures
            final(self).text() == old(self).text(),
            final(self).back() == old(self).back(),
            old(self).front() < old(self).back() && old(self).front() < old(self).text().len()
                ==> r == Some(&old(self).text()[old(self).front() as int]) && final(self).front()
                == old(self).front() + 1,
            !(old(self).front() < old(self).back() && old(self).front() < old(self).text().len())
                ==> r is None && final(self).front() == old(self).front(),
    {
        if self.idx >= self.end {
            return None;
        }
        let next = self.buff.get(self.idx);
        if next.is_some() {
            self.idx = self.idx + 1;
        }
        next
    }

    /// The character just before the back, moving the back onto it; `None`
    /// once the front meets the back.
    pub fn next_back(&mut self) -> (r: Option<&'a char>)
        ensures
            final(self).text() == old(self).text(),
            final(self).front() == old(self).front(),
            old(self).front() >= old(self).back() ==> r is None && final(self).back() == old(
                self,
            ).back(),
            old(self).front() < old(self).back() ==> final(self).back() == old(self).back() - 1
                && r == (if old(self).back() - 1 < old(self).text().len() {
                Some(&old(self).text()[old(self).back() - 1])
            } else {
                None
            }),
    {
        if self.idx >= self.end {
            return None;
        }
        self.end = self.end - 1;
        self.buff.get(self.end)
    }

    /// The length of the whole text, given as both bounds.
    pub fn size_hint(&self) -> (h: (usize, Option<usize>))
        ensures
            h == (self.text().len() as usize, Some(self.text().len() as usize)),
    {
        let len = self.buff.len();
        (len, Some(len))
    }
}

/// Inserting at a position inside the text puts the character exactly at
/// that position, the characters before it staying put and the ones from it
/// on moving one place up; inserting at or past the end appends it.
pub proof fn lemma_insert_lands_at_index(s: Seq<char>, idx: int, c: char)
    requires
        0 <= idx,
    ensures
        idx < s.len() ==> insert_position(s.len(), idx) == idx,
        idx >= s.len() ==> s.insert(insert_position(s.len(), idx), c) == s.push(c),
        idx < s.len() ==> ({
            let t = s.insert(insert_position(s.len(), idx), c);
            &&& t.len() == s.len() + 1
            &&& t[idx] == c
            &&& forall|j: int| 0 <= j < idx ==> #[trigger] t[j] == s[j]
            &&& forall|j: int| idx < j <= s.len() ==> #[trigger] t[j] == s[j - 1]
        }),
{
    if idx >= s.len() {
        assert(s.insert(s.len() as int, c) =~= s.push(c));
    }
}

/// Inserting `c` at `idx` and then reading where it went gives `c`: the text
/// grows by one, the characters before that position stay where they were and
/// the ones after it move one place up.
pub proof fn lemma_insert_then_get(s: Seq<char>, idx: int, c: char)
    requires
        0 <= idx,
    ensures
        ({
            let pos = insert_position(s.len(), idx);
            let t = s.insert(pos, c);
            &&& t.len() == s.len() + 1
            &&& char_at(t, pos) == Some(c)
            &&& forall|j: int| 0 <= j < pos ==> #[trigger] char_at(t, j) == char_at(s, j)
            &&& forall|j: int| pos < j <= s.len() ==> #[trigger] char_at(t, j) == char_at(s, j - 1)
        }),
{
}

} // verus!
