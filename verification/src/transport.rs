//! The reliable byte transport underneath a stream, and an in-memory
//! transport for driving the engine without a socket.

use vstd::prelude::*;

verus! {

/// A blocking reliable byte transport, as a stream sees it: some bytes are
/// still to be delivered (`inbox`), and every accepted outgoing byte is
/// appended to `wire`. Callers of the library implement this for their
/// sockets; `ChunkTransport` implements it in memory.
pub trait Transport: Sized {
    /// The bytes this transport has yet to deliver. An implementation
    /// outside the library may leave the default, an arbitrary sequence,
    /// since nothing is proved about it.
    closed spec fn inbox(&self) -> Seq<u8> {
        vstd::pervasive::arbitrary()
    }

    /// Every outgoing byte accepted so far, in order. An implementation
    /// outside the library may leave the default, an arbitrary sequence,
    /// since nothing is proved about it.
    closed spec fn wire(&self) -> Seq<u8> {
        vstd::pervasive::arbitrary()
    }

    /// Read into `buf[beg..end]`: delivers the next `r` inbox bytes there,
    /// touching nothing else. May deliver fewer bytes than fit; delivers
    /// none only at the end of the incoming stream (or into an empty range).
    fn read(&mut self, buf: &mut Vec<u8>, beg: usize, end: usize) -> (r: usize)
        requires
            beg <= end,
            end <= old(buf)@.len(),
        ensures
            r <= end - beg,
            r <= old(self).inbox().len(),
            final(buf)@.len() == old(buf)@.len(),
            forall|i: int| 0 <= i < old(buf)@.len() && !(beg <= i < beg + r) ==> final(buf)@[i]
                == old(buf)@[i],
            final(buf)@.subrange(beg as int, beg + r) == old(self).inbox().take(r as int),
            final(self).inbox() == old(self).inbox().skip(r as int),
            r == 0 && beg < end ==> old(self).inbox().len() == 0,
            final(self).wire() == old(self).wire(),
    ;

    /// Gathered write of a frame head and `payload[beg..end]`: appends some
    /// prefix of the two to the wire and returns how many bytes it took.
    fn write(&mut self, head: &[u8], payload: &[u8], beg: usize, end: usize) -> (r: usize)
        requires
            beg <= end,
            end <= payload@.len(),
        ensures
            r <= head@.len() + (end - beg),
            final(self).wire() == old(self).wire() + (head@ + payload@.subrange(
                beg as int,
                end as int,
            )).take(r as int),
            final(self).inbox() == old(self).inbox(),
    ;

    /// Pass any buffered outgoing bytes on; the wire as modelled here
    /// already holds them.
    fn flush(&mut self)
        ensures
            final(self).wire() == old(self).wire(),
            final(self).inbox() == old(self).inbox(),
    ;
}

/// The delivering half of `ChunkTransport`: a fixed byte sequence handed
/// out in chunks of at most `rlimit` bytes, `rlimit` at least 1.
#[derive(Debug)]
pub struct ChunkReader {
    rbuf: Vec<u8>,
    cursor: usize,
    rlimit: usize,
}

impl ChunkReader {
    #[verifier::type_invariant]
    spec fn type_inv(&self) -> bool {
        self.cursor <= self.rbuf@.len() && self.rlimit >= 1
    }

    /// The bytes still to be delivered.
    pub closed spec fn pending(&self) -> Seq<u8> {
        self.rbuf@.skip(self.cursor as int)
    }

    pub fn new(rbuf: Vec<u8>, rlimit: usize) -> (r: Self)
        requires
            rlimit >= 1,
        ensures
            r.pending() == rbuf@,
    {
        ChunkReader { rbuf, cursor: 0, rlimit }
    }

    /// Deliver the next bytes into `buf[beg..end]`, at most `rlimit` of
    /// them; delivers none only when nothing is left (or the range is
    /// empty).
    pub fn take(&mut self, buf: &mut Vec<u8>, beg: usize, end: usize) -> (r: usize)
        requires
            beg <= end,
            end <= old(buf)@.len(),
        ensures
            r <= end - beg,
            r <= old(self).pending().len(),
            final(buf)@.len() == old(buf)@.len(),
            forall|i: int| 0 <= i < old(buf)@.len() && !(beg <= i < beg + r) ==> final(buf)@[i]
                == old(buf)@[i],
            final(buf)@.subrange(beg as int, beg + r) == old(self).pending().take(r as int),
            final(self).pending() == old(self).pending().skip(r as int),
            r == 0 && beg < end ==> old(self).pending().len() == 0,
    {
        proof {
            use_type_invariant(&*self);
        }
        let window = end - beg;
        let left = self.rbuf.len() - self.cursor;
        let mut n = if window < self.rlimit {
            window
        } else {
            self.rlimit
        };
        if left < n {
            n = left;
        }
        let mut i: usize = 0;
        while i < n
            invariant
                i <= n,
                self == old(self),
                self.type_inv(),
                self.cursor + n <= self.rbuf@.len(),
                self.rbuf@.len() <= usize::MAX,
                beg + n <= end <= buf@.len() == old(buf)@.len(),
                forall|j: int| 0 <= j < buf@.len() && !(beg <= j < beg + i) ==> buf@[j] == old(
                    buf,
                )@[j],
                forall|j: int| 0 <= j < i ==> #[trigger] buf@[beg + j] == self.rbuf@[self.cursor + j],
            decreases n - i,
        {
            let b = self.rbuf[self.cursor + i];
            buf.set(beg + i, b);
            i += 1;
        }
        self.cursor = self.cursor + n;
        proof {
            assert forall|j: int| 0 <= j < n implies buf@.subrange(beg as int, beg + n)[j] == old(
                self,
            ).pending().take(n as int)[j] by {
                assert(buf@[beg + j] == old(self).rbuf@[old(self).cursor + j]);
            }
            assert(buf@.subrange(beg as int, beg + n) =~= old(self).pending().take(n as int));
            assert(self.pending() =~= old(self).pending().skip(n as int));
        }
        n
    }

    /// How many bytes are still to be delivered.
    pub fn left(&self) -> (r: usize)
        ensures
            r == self.pending().len(),
    {
        proof {
            use_type_invariant(self);
        }
        self.rbuf.len() - self.cursor
    }
}

/// In-memory transport delivering a fixed byte sequence in chunks of at most
/// `rlimit` bytes and accepting at most `wlimit` bytes per write.
#[derive(Debug)]
pub struct ChunkTransport {
    reader: ChunkReader,
    wbuf: Vec<u8>,
    wlimit: usize,
}

impl ChunkTransport {
    /// A transport that will deliver `rbuf`, at most `rlimit` bytes per
    /// read, and accept at most `wlimit` bytes per write.
    pub fn new(rbuf: Vec<u8>, rlimit: usize, wlimit: usize) -> (r: Self)
        requires
            rlimit >= 1,
            wlimit >= 1,
        ensures
            r.inbox() == rbuf@,
            r.wire() == Seq::<u8>::empty(),
    {
        ChunkTransport { reader: ChunkReader::new(rbuf, rlimit), wbuf: Vec::new(), wlimit }
    }

    /// Copy of everything written so far.
    pub fn written(&self) -> (r: Vec<u8>)
        ensures
            r@ == self.wire(),
    {
        let mut out: Vec<u8> = Vec::new();
        let mut i: usize = 0;
        while i < self.wbuf.len()
            invariant
                i <= self.wbuf@.len(),
                out@ == self.wbuf@.subrange(0, i as int),
            decreases self.wbuf@.len() - i,
        {
            out.push(self.wbuf[i]);
            assert(out@ =~= self.wbuf@.subrange(0, i + 1));
            i += 1;
        }
        assert(out@ =~= self.wbuf@);
        out
    }

    /// How many inbox bytes are still to be delivered.
    pub fn inbox_left(&self) -> (r: usize)
        ensures
            r == self.inbox().len(),
    {
        self.reader.left()
    }
}

impl Transport for ChunkTransport {
    closed spec fn inbox(&self) -> Seq<u8> {
        self.reader.pending()
    }

    closed spec fn wire(&self) -> Seq<u8> {
        self.wbuf@
    }

    fn read(&mut self, buf: &mut Vec<u8>, beg: usize, end: usize) -> (r: usize) {
        self.reader.take(buf, beg, end)
    }

    fn write(&mut self, head: &[u8], payload: &[u8], beg: usize, end: usize) -> (r: usize) {
        let ghost submitted = head@ + payload@.subrange(beg as int, end as int);
        let window = end - beg;
        let total = if head.len() < usize::MAX - window {
            head.len() + window
        } else {
            usize::MAX
        };
        let n = if total < self.wlimit {
            total
        } else {
            self.wlimit
        };
        let mut i: usize = 0;
        while i < n
            invariant
                i <= n,
                n <= head@.len() + (end - beg),
                beg <= end <= payload@.len(),
                submitted == head@ + payload@.subrange(beg as int, end as int),
                self.reader == old(self).reader,
                self.wlimit == old(self).wlimit,
                self.wbuf@ == old(self).wbuf@ + submitted.take(i as int),
            decreases n - i,
        {
            let b = if i < head.len() {
                *vstd::slice::slice_index_get(head, i)
            } else {
                *vstd::slice::slice_index_get(payload, beg + (i - head.len()))
            };
            self.wbuf.push(b);
            assert(self.wbuf@ =~= old(self).wbuf@ + submitted.take(i + 1));
            i += 1;
        }
        n
    }

    fn flush(&mut self) {
    }
}

} // verus!
