use vstd::prelude::*;

verus! {

/// Fixed-capacity buffer on the stack with independent read and write cursors.
///
/// `rd <= wr <= N` always holds; callers guarantee it through the `requires`
/// clauses, no runtime check is made. `rd == wr` means nothing is left to
/// read; `wr == N` means no space is left to write.
#[derive(Debug, Clone, Copy)]
pub struct Store<const N: usize> {
    pub rd: u8,
    pub wr: u8,
    pub buf: [u8; N],
}

impl<const N: usize> Store<N> {
    /// Cursor discipline: read cursor at or before write cursor, both within
    /// capacity, and the capacity fits the 8-bit cursors.
    pub open spec fn wf(&self) -> bool {
        self.rd <= self.wr && self.wr <= N && N <= 255
    }

    /// The bytes between the read and the write cursor.
    pub open spec fn readable(&self) -> Seq<u8> {
        self.buf@.subrange(self.rd as int, self.wr as int)
    }

    pub fn new() -> (r: Self)
        requires
            N <= 255,
        ensures
            r.wf(),
            r.rd == 0 && r.wr == 0,
            r.buf@ == Seq::new(N as nat, |i: int| 0u8),
    {
        Store { rd: 0, wr: 0, buf: vstd::array::array_fill_for_copy_types(0u8) }
    }

    /// Fresh store holding a copy of `data`, read cursor at the front.
    pub fn new_with_data(data: &[u8]) -> (r: Self)
        requires
            N <= 255,
            data@.len() <= N,
        ensures
            r.wf(),
            r.rd == 0,
            r.wr == data@.len(),
            r.readable() == data@,
    {
        let mut s = Self::new();
        s.replace_with_data(data);
        s
    }

    /// Overwrite the front of the buffer with `data` and reset the cursors
    /// around it.
    pub fn replace_with_data(&mut self, data: &[u8])
        requires
            old(self).wf(),
            data@.len() <= N,
        ensures
            final(self).wf(),
            final(self).rd == 0,
            final(self).wr == data@.len(),
            final(self).readable() == data@,
    {
        let n = data.len();
        let mut i: usize = 0;
        while i < n
            invariant
                i <= n,
                n == data@.len() <= N,
                self.buf@.len() == N,
                self.rd == old(self).rd,
                self.wr == old(self).wr,
                forall|j: int| 0 <= j < i ==> self.buf@[j] == data@[j],
            decreases n - i,
        {
            self.buf[i] = *vstd::slice::slice_index_get(data, i);
            i += 1;
        }
        self.rd = 0;
        self.wr = n as u8;
        assert(self.readable() =~= data@);
    }

    pub fn rd_pos(&self) -> (r: usize)
        ensures
            r == self.rd,
    {
        self.rd as usize
    }

    pub fn wr_pos(&self) -> (r: usize)
        ensures
            r == self.wr,
    {
        self.wr as usize
    }

    pub fn set_rd_pos(&mut self, n: usize)
        requires
            n <= 255,
        ensures
            *final(self) == (Store { rd: n as u8, ..*old(self) }),
    {
        self.rd = n as u8;
    }

    pub fn set_wr_pos(&mut self, n: usize)
        requires
            n <= 255,
        ensures
            *final(self) == (Store { wr: n as u8, ..*old(self) }),
    {
        self.wr = n as u8;
    }

    pub fn advance_rd_pos(&mut self, n: usize)
        requires
            old(self).rd + n <= 255,
        ensures
            *final(self) == (Store { rd: (old(self).rd + n) as u8, ..*old(self) }),
    {
        self.rd = self.rd + n as u8;
    }

    pub fn advance_wr_pos(&mut self, n: usize)
        requires
            old(self).wr + n <= 255,
        ensures
            *final(self) == (Store { wr: (old(self).wr + n) as u8, ..*old(self) }),
    {
        self.wr = self.wr + n as u8;
    }

    /// Bytes still to read.
    pub fn rd_left(&self) -> (r: usize)
        requires
            self.wf(),
        ensures
            r == self.readable().len(),
    {
        (self.wr - self.rd) as usize
    }

    /// Space still to write.
    pub fn wr_left(&self) -> (r: usize)
        requires
            self.wf(),
        ensures
            r == N - self.wr,
    {
        N - self.wr as usize
    }

    /// True when nothing was ever written (or the store was reset).
    pub fn is_empty(&self) -> (r: bool)
        ensures
            r == (self.wr == 0),
    {
        self.wr == 0
    }

    pub fn get(&self, idx: usize) -> (r: u8)
        requires
            idx < N,
        ensures
            r == self.buf@[idx as int],
    {
        self.buf[idx]
    }

    /// Copy of the readable bytes.
    pub fn read(&self) -> (r: Vec<u8>)
        requires
            self.wf(),
        ensures
            r@ == self.readable(),
    {
        let mut out: Vec<u8> = Vec::new();
        let mut i: usize = self.rd as usize;
        while i < self.wr as usize
            invariant
                self.wf(),
                self.rd <= i <= self.wr,
                self.buf@.len() == N,
                out@ == self.buf@.subrange(self.rd as int, i as int),
            decreases self.wr - i,
        {
            out.push(self.buf[i]);
            assert(out@ =~= self.buf@.subrange(self.rd as int, i + 1));
            i += 1;
        }
        assert(out@ =~= self.readable());
        out
    }

    /// Append `data` at the write cursor and advance it.
    pub fn push_bytes(&mut self, data: &[u8])
        requires
            old(self).wf(),
            old(self).wr + data@.len() <= N,
        ensures
            final(self).wf(),
            final(self).rd == old(self).rd,
            final(self).wr == old(self).wr + data@.len(),
            final(self).readable() == old(self).readable() + data@,
    {
        let n = data.len();
        let mut i: usize = 0;
        while i < n
            invariant
                i <= n,
                old(self).wf(),
                n == data@.len(),
                old(self).wr + n <= N,
                self.rd == old(self).rd,
                self.wr == old(self).wr,
                self.buf@.len() == N,
                forall|j: int| 0 <= j < old(self).wr ==> self.buf@[j] == old(self).buf@[j],
                forall|j: int| 0 <= j < i ==> self.buf@[old(self).wr + j] == data@[j],
            decreases n - i,
        {
            self.buf[self.wr as usize + i] = *vstd::slice::slice_index_get(data, i);
            i += 1;
        }
        self.wr = self.wr + n as u8;
        assert(final(self).readable() =~= old(self).readable() + data@);
    }

    pub fn reset(&mut self)
        ensures
            *final(self) == (Store { rd: 0u8, wr: 0u8, ..*old(self) }),
    {
        self.rd = 0;
        self.wr = 0;
    }
}

/// Cursor over a caller-owned byte buffer; `pos` bytes of the buffer are
/// considered written, `cap` is the buffer's length. The buffer itself is
/// passed to each writing call so that nothing here borrows it.
#[derive(Debug, Clone, Copy)]
pub struct Writer {
    pub pos: usize,
    pub cap: usize,
}

impl Writer {
    /// Writer positioned at the front of `buf`.
    pub fn new(buf: &Vec<u8>) -> (r: Writer)
        ensures
            r.pos == 0,
            r.cap == buf@.len(),
    {
        Writer { pos: 0, cap: buf.len() }
    }

    pub fn pos(&self) -> (r: usize)
        ensures
            r == self.pos,
    {
        self.pos
    }

    pub fn cap(&self) -> (r: usize)
        ensures
            r == self.cap,
    {
        self.cap
    }

    pub fn remaining(&self) -> (r: usize)
        requires
            self.pos <= self.cap,
        ensures
            r == self.cap - self.pos,
    {
        self.cap - self.pos
    }

    /// Write `src` at the cursor, which must fit; advances the cursor.
    pub fn write_slice(&mut self, buf: &mut Vec<u8>, src: &[u8])
        requires
            old(self).pos + src@.len() <= old(self).cap,
            old(self).cap == old(buf)@.len(),
        ensures
            final(self).cap == old(self).cap,
            final(self).pos == old(self).pos + src@.len(),
            final(buf)@.len() == old(buf)@.len(),
            final(buf)@ == old(buf)@.subrange(0, old(self).pos as int) + src@
                + old(buf)@.skip(old(self).pos + src@.len()),
            final(buf)@.subrange(0, old(self).pos as int)
                == old(buf)@.subrange(0, old(self).pos as int),
    {
        let n = src.len();
        let mut i: usize = 0;
        while i < n
            invariant
                i <= n,
                n == src@.len(),
                old(self).pos + n <= old(self).cap == old(buf)@.len(),
                self == old(self),
                buf@.len() == old(buf)@.len(),
                forall|j: int| 0 <= j < old(buf)@.len() && !(old(self).pos <= j < old(self).pos + i)
                    ==> buf@[j] == old(buf)@[j],
                forall|j: int| 0 <= j < i ==> buf@[old(self).pos + j] == src@[j],
            decreases n - i,
        {
            buf.set(self.pos + i, *vstd::slice::slice_index_get(src, i));
            i += 1;
        }
        self.pos = self.pos + n;
        assert(final(buf)@ =~= old(buf)@.subrange(0, old(self).pos as int) + src@
            + old(buf)@.skip(old(self).pos + src@.len()));
    }

    /// Write one byte at the cursor, which must fit; advances the cursor.
    pub fn write_byte(&mut self, buf: &mut Vec<u8>, b: u8)
        requires
            old(self).pos < old(self).cap,
            old(self).cap == old(buf)@.len(),
        ensures
            final(self).cap == old(self).cap,
            final(self).pos == old(self).pos + 1,
            final(buf)@ == old(buf)@.update(old(self).pos as int, b),
    {
        buf.set(self.pos, b);
        self.pos = self.pos + 1;
    }
}

} // verus!
