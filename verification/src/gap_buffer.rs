use vstd::prelude::*;

verus! {

/// The size of the gap a new buffer starts with.
pub const STARTING_GAP: usize = 4096;

/// A gap inside a byte buffer: `len` free bytes starting at `offset`.
#[derive(Clone, Copy, Debug, PartialEq, Eq, Structural)]
pub struct Gap {
    pub offset: usize,
    pub len: usize,
}

impl Gap {
    pub fn new(offset: usize, len: usize) -> (g: Gap)
        ensures
            g == (Gap { offset, len }),
    {
        Gap { offset, len }
    }

    /// The first byte of the gap.
    pub fn start(&self) -> (s: usize)
        ensures
            s == self.offset,
    {
        self.offset
    }

    /// One past the last byte of the gap.
    pub fn end(&self) -> (e: usize)
        requires
            self.offset + self.len <= usize::MAX,
        ensures
            e == self.offset + self.len,
    {
        self.offset + self.len
    }

    pub fn len(&self) -> (n: usize)
        ensures
            n == self.len,
    {
        self.len
    }

    /// Moves the gap `delta` bytes towards the front, stopping at 0.
    pub fn shift_left(&mut self, delta: usize)
        ensures
            final(self).len == old(self).len,
            final(self).offset == (if delta <= old(self).offset {
                (old(self).offset - delta) as usize
            } else {
                0
            }),
    {
        self.offset = self.offset.saturating_sub(delta);
    }

    /// Moves the gap `delta` bytes towards the back, unless its end would
    /// then reach `BUF_END`, in which case it stays where it is.
    pub fn shift_right<const BUF_END: usize>(&mut self, delta: usize)
        requires
            delta + old(self).offset + old(self).len <= usize::MAX,
        ensures
            final(self).len == old(self).len,
            final(self).offset == (if delta + old(self).offset + old(self).len < BUF_END {
                (old(self).offset + delta) as usize
            } else {
                old(self).offset
            }),
    {
        if delta + self.offset + self.len < BUF_END {
            self.offset = self.offset + delta;
        }
    }
}

/// A byte buffer with a gap, holding the contents of a file.
pub struct GapBuffer {
    buf: Vec<u8>,
    gap: Gap,
}

impl GapBuffer {
    /// The bytes of the buffer, gap included.
    pub closed spec fn raw(&self) -> Seq<u8> {
        self.buf@
    }

    /// Where the gap stands.
    pub closed spec fn gap(&self) -> Gap {
        self.gap
    }

    /// A buffer over the bytes `contents`, followed by a gap of
    /// `STARTING_GAP` bytes where text can later be written. The gap's bytes
    /// are really there, written as zeros (not only reserved), so that the
    /// gap lies inside the buffer and `iter` can skip over it.
    pub fn new(contents: Vec<u8>) -> (b: GapBuffer)
        requires
            contents@.len() + STARTING_GAP <= usize::MAX,
        ensures
            b.raw() == contents@ + Seq::new(STARTING_GAP as nat, |i: int| 0u8),
            b.gap() == (Gap { offset: contents@.len() as usize, len: STARTING_GAP }),
            b.gap().offset + b.gap().len == b.raw().len(),
    {
        let mut buf = contents;
        let init_file_size = buf.len();
        let gap = Gap::new(init_file_size, STARTING_GAP);
        buf.reserve(gap.len());
        let ghost zeros = Seq::new(STARTING_GAP as nat, |i: int| 0u8);
        let mut k: usize = 0;
        while k < gap.len()
            invariant
                k <= STARTING_GAP,
                gap == (Gap { offset: init_file_size, len: STARTING_GAP }),
                init_file_size == contents@.len(),
                zeros == Seq::new(STARTING_GAP as nat, |i: int| 0u8),
                buf@ == contents@ + zeros.take(k as int),
            decreases STARTING_GAP - k,
        {
            buf.push(0u8);
            assert(zeros[k as int] == 0u8);
            assert(zeros.take(k + 1) =~= zeros.take(k as int).push(0u8));
            k = k + 1;
        }
        assert(zeros.take(STARTING_GAP as int) =~= zeros);
        GapBuffer { buf, gap }
    }

    /// The bytes before the gap and the bytes after it. For a buffer just
    /// made by `new` these are the contents and nothing.
    pub fn iter(&self) -> (parts: (&[u8], &[u8]))
        requires
            self.gap().offset + self.gap().len <= self.raw().len(),
        ensures
            parts.0@ == self.raw().take(self.gap().offset as int),
            parts.1@ == self.raw().skip(self.gap().offset + self.gap().len),
    {
        let n = self.buf.len();
        let end = self.gap.end();
        (&self.buf[0..self.gap.start()], &self.buf[end..n])
    }
}

impl core::ops::Index<usize> for GapBuffer {
    type Output = u8;

    /// The byte at position `idx` of the contents, skipping over the gap.
    fn index(&self, idx: usize) -> (b: &u8)
        ensures
            *b == (if idx < self.gap().offset {
                self.raw()[idx as int]
            } else {
                self.raw()[idx + self.gap().len]
            }),
    {
        proof {
            assert(self.buf@.len() == self.buf.len());
        }
        if idx < self.gap.start() {
            &self.buf[idx]
        } else {
            &self.buf[idx + self.gap.len()]
        }
    }
}

impl vstd::std_specs::core::IndexSpecImpl<usize> for GapBuffer {
    open spec fn index_req(&self, idx: &usize) -> bool {
        if *idx < self.gap().offset {
            *idx < self.raw().len()
        } else {
            *idx + self.gap().len < self.raw().len()
        }
    }
}

} // verus!
