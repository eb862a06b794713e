use vstd::prelude::*;
use crate::error::WsError;
use crate::frame::head::spec_encode_head;
use crate::role::RoleHelper;
use crate::stream::{Direct, Guarded, Stream};
use crate::stream::detail::spec_min_len;
use crate::stream::detail::write::{spec_data_frame_head, write_some, write_some_post};
use crate::stream::state::WriteState;
use crate::transport::Transport;

verus! {

/// Termination measure of the guarded write loop: a fresh head may become a
/// partial one once, a partial head only shrinks, then at most one pass
/// through `WriteData`, then `WriteZero`.
pub open spec fn write_measure(ws: WriteState) -> int {
    match ws {
        WriteState::WriteHead(h) => if h.wr == 0 {
            16
        } else {
            h.readable().len() as int + 2
        },
        WriteState::WriteData(_) => 1,
        WriteState::WriteZero => 0,
    }
}

/// What a guarded write promises: 0 only in `WriteZero`; from a fresh write
/// state a non-zero result means one new frame head went out followed by
/// that many payload bytes; from inside a frame, that many more payload
/// bytes went out.
pub open spec fn guarded_write_post<IO: Transport, R: RoleHelper>(
    pre: Stream<IO, R, Guarded>,
    post: Stream<IO, R, Guarded>,
    buf: Seq<u8>,
    n: usize,
) -> bool {
    &&& n <= buf.len()
    &&& (n == 0 <==> post.write_state is WriteZero)
    &&& n == 0 && pre.write_state is WriteHead ==> {
        let hb = crate::stream::detail::write::spec_submitted_head(
            pre,
            pre.write_state->WriteHead_0,
            buf,
        );
        let f = post.io.wire().len() - pre.io.wire().len();
        &&& 0 <= f <= hb.len()
        &&& post.io.wire() == pre.io.wire() + hb.take(f)
    }
    &&& n == 0 && !(pre.write_state is WriteHead) ==> post.io.wire() == pre.io.wire()
    &&& (pre.write_state matches WriteState::WriteHead(h) && h.wr == 0) && n > 0 ==> {
        let hb = spec_encode_head(spec_data_frame_head(pre.role.spec_mask(), buf.len() as u64));
        &&& post.io.wire() == pre.io.wire() + hb + buf.take(n as int)
        &&& if n == buf.len() {
            post.write_state matches WriteState::WriteHead(h2) && h2.wr == 0
        } else {
            post.write_state == WriteState::WriteData((buf.len() - n) as u64)
        }
    }
    &&& (pre.write_state matches WriteState::WriteData(next)) && n > 0 ==> {
        let next = pre.write_state->WriteData_0;
        &&& n <= next
        &&& post.io.wire() == pre.io.wire() + buf.take(n as int)
        &&& if n == next {
            post.write_state matches WriteState::WriteHead(h2) && h2.wr == 0
        } else {
            post.write_state == WriteState::WriteData((next - n) as u64)
        }
    }
}

impl<IO: Transport, Role: RoleHelper> Stream<IO, Role, Direct> {
    /// Write some payload: one transport submission. Returns 0 while the
    /// frame head is in flight (call again with the same buffer) and after
    /// a zero-byte transport write, observable via `is_write_zero`. The
    /// frame head is generated from the buffer's length; a standard client
    /// masks payload before handing it in.
    pub fn write(&mut self, buf: &[u8]) -> (r: Result<usize, WsError>)
        requires
            old(self).wf(),
        ensures
            final(self).wf(),
            final(self).io.inbox() == old(self).io.inbox(),
            final(self).read_state == old(self).read_state,
            final(self).heartbeat == old(self).heartbeat,
            final(self).role == old(self).role,
            r is Ok,
            write_some_post(*old(self), *final(self), buf@, r->Ok_0),
    {
        Ok(write_some(self, buf))
    }
}

impl<IO: Transport, Role: RoleHelper> Stream<IO, Role, Guarded> {
    /// Write some payload, looping while the frame head is partially
    /// written; 0 means the transport accepted zero bytes and the stream is
    /// finished writing, with at most a prefix of the frame head on the
    /// wire. The buffer must not be empty: a guarded write of an empty
    /// buffer would finish its empty frame, still stand at a fresh head,
    /// and so emit empty frames without end.
    #[verifier::rlimit(100)]
    #[verifier::spinoff_prover]
    pub fn write(&mut self, buf: &[u8]) -> (r: Result<usize, WsError>)
        requires
            old(self).wf(),
            buf@.len() >= 1,
        ensures
            final(self).wf(),
            final(self).io.inbox() == old(self).io.inbox(),
            final(self).read_state == old(self).read_state,
            final(self).heartbeat == old(self).heartbeat,
            final(self).role == old(self).role,
            r is Ok,
            guarded_write_post(*old(self), *final(self), buf@, r->Ok_0),
    {
        let total = buf.len();
        let ghost wire0 = self.io.wire();
        let ghost hb0 = match old(self).write_state {
            WriteState::WriteHead(hs) => crate::stream::detail::write::spec_submitted_head(
                *old(self),
                hs,
                buf@,
            ),
            _ => Seq::empty(),
        };
        loop
            invariant
                self.wf(),
                1 <= buf@.len() <= usize::MAX,
                self.io.inbox() == old(self).io.inbox(),
                self.read_state == old(self).read_state,
                self.heartbeat == old(self).heartbeat,
                self.role == old(self).role,
                wire0 == old(self).io.wire(),
                hb0 == match old(self).write_state {
                    WriteState::WriteHead(hs) => crate::stream::detail::write::spec_submitted_head(
                        *old(self),
                        hs,
                        buf@,
                    ),
                    _ => Seq::empty(),
                },
                ({
                    let flushed = self.io.wire().len() - wire0.len();
                    match old(self).write_state {
                        WriteState::WriteZero => self.write_state is WriteZero && self.io.wire()
                            == wire0,
                        WriteState::WriteData(_) => self.write_state == old(self).write_state
                            && self.io.wire() == wire0,
                        WriteState::WriteHead(_) => {
                            &&& flushed <= hb0.len()
                            &&& self.io.wire() == wire0 + hb0.take(flushed as int)
                            &&& if flushed == 0 {
                                self.write_state == old(self).write_state
                            } else if flushed < hb0.len() {
                                (self.write_state matches WriteState::WriteHead(h) && h.wr != 0
                                    && h.readable() == hb0.skip(flushed as int))
                            } else {
                                self.write_state == WriteState::WriteData(buf@.len() as u64)
                            }
                        },
                    }
                }),
            decreases write_measure(self.write_state),
        {
            let ghost pre_loop = *self;
            let n = write_some(self, buf);
            if !(n == 0 && (self.is_write_partial_head() || !self.is_write_zero())) {
                proof {
                    let flushed0 = pre_loop.io.wire().len() - wire0.len();
                    let w = self.io.wire().len() - pre_loop.io.wire().len();
                    if n == 0 {
                        match old(self).write_state {
                            WriteState::WriteHead(hs) => {
                                let hb = crate::stream::detail::write::spec_submitted_head(
                                    *old(self),
                                    hs,
                                    buf@,
                                );
                                assert(hb == hb0);
                                assert(0 <= flushed0 <= hb0.len() && self.io.wire() == old(
                                    self,
                                ).io.wire() + hb0.take(flushed0));
                            },
                            _ => {
                                assert(buf@.take(0int) =~= Seq::<u8>::empty());
                                assert(self.io.wire() =~= old(self).io.wire());
                            },
                        }
                    }
                    if n > 0 {
                        match old(self).write_state {
                            WriteState::WriteHead(_) => {
                                assert(self.io.wire() =~= wire0 + hb0 + buf@.take(n as int)) by {
                                    match pre_loop.write_state {
                                        WriteState::WriteHead(hs1) => {
                                            let hb1 =
                                                crate::stream::detail::write::spec_submitted_head(
                                                pre_loop,
                                                hs1,
                                                buf@,
                                            );
                                            assert(hb1 == hb0.skip(flushed0 as int));
                                            assert(self.io.wire() == pre_loop.io.wire() + (hb1
                                                + buf@).take(w as int));
                                            assert((hb1 + buf@).take(w as int) =~= hb0.skip(
                                                flushed0 as int,
                                            ) + buf@.take(n as int));
                                        },
                                        WriteState::WriteData(nx) => {
                                            assert(flushed0 == hb0.len());
                                            assert(hb0.take(hb0.len() as int) =~= hb0);
                                        },
                                        WriteState::WriteZero => {},
                                    }
                                }
                            },
                            WriteState::WriteData(next) => {
                                assert(self.io.wire() =~= wire0 + buf@.take(n as int));
                            },
                            WriteState::WriteZero => {},
                        }
                    }
                }
                return Ok(n);
            }
            proof {
                let flushed0 = pre_loop.io.wire().len() - wire0.len();
                let w = self.io.wire().len() - pre_loop.io.wire().len();
                match pre_loop.write_state {
                    WriteState::WriteHead(hs1) => {
                        let hb1 = crate::stream::detail::write::spec_submitted_head(
                            pre_loop,
                            hs1,
                            buf@,
                        );
                        assert(hb1 == hb0.skip(flushed0 as int));
                        if w > 0 {
                            assert(self.io.wire() =~= wire0 + hb0.take(flushed0 + w)) by {
                                assert((hb1 + buf@).take(w as int) =~= hb0.skip(
                                    flushed0 as int,
                                ).take(w as int));
                                assert(hb0.take(flushed0 as int) + hb0.skip(flushed0 as int).take(
                                    w as int,
                                ) =~= hb0.take(flushed0 + w));
                            }
                            if flushed0 + w < hb0.len() {
                                assert(hb1.skip(w as int) =~= hb0.skip(flushed0 + w));
                            }
                        }
                    },
                    _ => {},
                }
            }
        }
    }

    /// Write the whole buffer as one frame, looping until every byte is on
    /// the wire. Returns false, leaving the stream in `WriteZero`, if the
    /// transport stopped accepting bytes.
    pub fn write_all(&mut self, buf: &[u8]) -> (ok: bool)
        requires
            old(self).wf(),
            old(self).write_state matches WriteState::WriteHead(h) && h.wr == 0,
        ensures
            final(self).wf(),
            final(self).io.inbox() == old(self).io.inbox(),
            final(self).read_state == old(self).read_state,
            final(self).heartbeat == old(self).heartbeat,
            final(self).role == old(self).role,
            !ok ==> final(self).write_state is WriteZero,
            ok && buf@.len() == 0 ==> final(self).io.wire() == old(self).io.wire()
                && final(self).write_state == old(self).write_state,
            ok && buf@.len() >= 1 ==> {
                &&& final(self).io.wire() == old(self).io.wire() + spec_encode_head(
                    spec_data_frame_head(old(self).role.spec_mask(), buf@.len() as u64),
                ) + buf@
                &&& final(self).write_state matches WriteState::WriteHead(h2) && h2.wr == 0
            },
    {
        if buf.len() == 0 {
            return true;
        }
        let ghost wire0 = self.io.wire();
        let ghost hb = spec_encode_head(
            spec_data_frame_head(old(self).role.spec_mask(), buf@.len() as u64),
        );
        let mut written: usize = 0;
        while written < buf.len()
            invariant
                self.wf(),
                written <= buf@.len(),
                1 <= buf@.len() <= usize::MAX,
                (old(self).write_state matches WriteState::WriteHead(h0) && h0.wr == 0),
                self.io.inbox() == old(self).io.inbox(),
                self.read_state == old(self).read_state,
                self.heartbeat == old(self).heartbeat,
                self.role == old(self).role,
                wire0 == old(self).io.wire(),
                hb == spec_encode_head(
                    spec_data_frame_head(old(self).role.spec_mask(), buf@.len() as u64),
                ),
                if written == 0 {
                    self.write_state == old(self).write_state && self.io.wire() == wire0
                } else {
                    &&& self.io.wire() == wire0 + hb + buf@.take(written as int)
                    &&& if written < buf@.len() {
                        self.write_state == WriteState::WriteData((buf@.len() - written) as u64)
                    } else {
                        (self.write_state matches WriteState::WriteHead(h2) && h2.wr == 0)
                    }
                },
            decreases buf@.len() - written,
        {
            let rest = vstd::slice::slice_subrange(buf, written, buf.len());
            let ghost pre_iter = *self;
            let r = self.write(rest);
            let n = match r {
                Ok(n) => n,
                Err(_) => 0,
            };
            if n == 0 {
                return false;
            }
            proof {
                assert(n == r->Ok_0 && n > 0);
                if written == 0 {
                    assert(rest@ =~= buf@);
                    assert(pre_iter.write_state matches WriteState::WriteHead(h) && h.wr == 0);
                    assert(guarded_write_post(pre_iter, *self, rest@, n));
                    let hb2 = spec_encode_head(
                        spec_data_frame_head(pre_iter.role.spec_mask(), rest@.len() as u64),
                    );
                    assert(hb2 == hb);
                    assert(self.io.wire() == pre_iter.io.wire() + hb2 + rest@.take(n as int));
                    assert(rest@.take(n as int) =~= buf@.take(n as int));
                    assert(self.io.wire() =~= wire0 + hb + buf@.take(n as int));
                } else {
                    assert(self.io.wire() == pre_iter.io.wire() + rest@.take(n as int));
                    assert(buf@.take(written as int) + rest@.take(n as int) =~= buf@.take(
                        written + n,
                    ));
                    assert(self.io.wire() =~= wire0 + hb + buf@.take(written + n));
                }
            }
            written = written + n;
        }
        assert(buf@.take(written as int) =~= buf@);
        true
    }
}

} // verus!
