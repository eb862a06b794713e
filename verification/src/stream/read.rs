use vstd::prelude::*;
use crate::error::WsError;
use crate::role::RoleHelper;
use crate::stream::{Direct, Guarded, Stream};
use crate::stream::detail::read::{head_ned, lemma_read_composes, lemma_read_some_eof,
    pending_data, plain_from, read_some, read_some_post};
use crate::stream::state::rs_model;
use crate::transport::Transport;

verus! {

impl<IO: Transport, Role: RoleHelper> Stream<IO, Role, Direct> {
    /// Read some data: one transport read at most. Returns 0 until a
    /// complete frame head is present, after reading a control frame
    /// (observable via `is_pinged`), and after a close frame or end of
    /// stream (observable via `is_read_end`). The buffer must hold at least
    /// 14 bytes so any head can be finished in place.
    pub fn read(&mut self, buf: &mut Vec<u8>) -> (r: Result<usize, WsError>)
        requires
            old(self).wf(),
            old(buf)@.len() >= 14,
        ensures
            final(self).wf(),
            final(buf)@.len() == old(buf)@.len(),
            final(self).write_state == old(self).write_state,
            final(self).role == old(self).role,
            final(self).io.wire() == old(self).io.wire(),
            read_some_post(*old(self), *final(self), old(buf)@, final(buf)@, r),
            r matches Ok(n) ==> n <= old(buf)@.len(),
            (r matches Ok(n) && n == 0) ==> (final(self).read_state is Eof
                || final(self).read_state is Close || final(self).read_state is ReadHead
                || final(self).read_state is ReadPing || final(self).read_state is ReadData
                || old(self).read_state is ProcessBuf),
    {
        read_some(self, buf)
    }
}

impl<IO: Transport, Role: RoleHelper> Stream<IO, Role, Guarded> {
    /// Read some data, looping while a frame head is in flight or a control
    /// frame was consumed; 0 means the stream ended, by a close frame or at
    /// end of stream. Where no mask key is in play, the bytes handed out
    /// are exactly the next of the pending application data.
    #[verifier::rlimit(100)]
    pub fn read(&mut self, buf: &mut Vec<u8>) -> (r: Result<usize, WsError>)
        requires
            old(self).wf(),
            !(old(self).read_state is ProcessBuf),
            old(buf)@.len() >= 14,
        ensures
            final(self).wf(),
            final(buf)@.len() == old(buf)@.len(),
            final(self).write_state == old(self).write_state,
            final(self).role == old(self).role,
            final(self).io.wire() == old(self).io.wire(),
            final(self).io.inbox().len() <= old(self).io.inbox().len(),
            r matches Ok(n) ==> n <= old(buf)@.len(),
            (r matches Ok(n) && n == 0) ==> (final(self).read_state is Eof
                || final(self).read_state is Close),
            (r matches Ok(n) && n > 0) ==> final(self).io.inbox().len() < old(
                self
            ).io.inbox().len(),
            r is Ok ==> !(final(self).read_state is ProcessBuf),
            (r is Ok && final(self).read_state is Eof && !(old(self).read_state is Eof))
                ==> final(self).io.inbox().len() == 0,
            r matches Ok(n) ==> ((plain_from(
                rs_model(old(self).read_state),
                old(self).io.inbox(),
            ) && head_ned(rs_model(old(self).read_state))) ==> {
                &&& pending_data(rs_model(old(self).read_state), old(self).io.inbox())
                    == final(buf)@.take(n as int) + pending_data(
                    rs_model(final(self).read_state),
                    final(self).io.inbox(),
                )
                &&& plain_from(rs_model(final(self).read_state), final(self).io.inbox())
                &&& head_ned(rs_model(final(self).read_state))
            }),
    {
        let ghost plain0 = plain_from(rs_model(old(self).read_state), old(self).io.inbox())
            && head_ned(rs_model(old(self).read_state));
        loop
            invariant
                self.wf(),
                !(self.read_state is ProcessBuf),
                buf@.len() == old(buf)@.len() >= 14,
                self.write_state == old(self).write_state,
                self.role == old(self).role,
                self.io.wire() == old(self).io.wire(),
                self.io.inbox().len() <= old(self).io.inbox().len(),
                old(self).read_state is Eof ==> self.read_state is Eof,
                !(old(self).read_state is Eof) && self.read_state is Eof ==> self.io.inbox().len()
                    == 0,
                plain0 == (plain_from(rs_model(old(self).read_state), old(self).io.inbox())
                    && head_ned(rs_model(old(self).read_state))),
                plain0 ==> {
                    &&& plain_from(rs_model(self.read_state), self.io.inbox())
                    &&& head_ned(rs_model(self.read_state))
                    &&& pending_data(rs_model(old(self).read_state), old(self).io.inbox())
                        == pending_data(rs_model(self.read_state), self.io.inbox())
                },
            decreases self.io.inbox().len(),
        {
            let ghost pre_iter = *self;
            let ghost buf_pre = buf@;
            match read_some(self, buf) {
                Err(e) => {
                    return Err(e);
                },
                Ok(n) => {
                    proof {
                        if !(pre_iter.read_state is Eof) {
                            lemma_read_some_eof(pre_iter, *self, buf_pre, buf@, n);
                        }
                        if plain0 {
                            lemma_read_composes(pre_iter, *self, buf_pre, buf@, n);
                        }
                    }
                    if !(n == 0 && (self.is_read_partial_head() || !self.is_read_end())) {
                        return Ok(n);
                    }
                    proof {
                        assert(self.io.inbox().len() < pre_iter.io.inbox().len());
                        if plain0 {
                            assert(buf@.take(0int) =~= Seq::<u8>::empty());
                            assert(Seq::<u8>::empty() + pending_data(
                                rs_model(self.read_state),
                                self.io.inbox(),
                            ) =~= pending_data(rs_model(self.read_state), self.io.inbox()));
                        }
                    }
                },
            }
        }
    }

    /// Read until a close frame or end of stream, appending everything to
    /// `out`; returns how many bytes were appended. Where no mask key is in
    /// play, the appended bytes are exactly the pending application data of
    /// the delivered wire image.
    #[verifier::rlimit(100)]
    pub fn read_to_end(&mut self, out: &mut Vec<u8>) -> (r: Result<usize, WsError>)
        requires
            old(self).wf(),
            !(old(self).read_state is ProcessBuf),
        ensures
            final(self).wf(),
            final(self).write_state == old(self).write_state,
            final(self).role == old(self).role,
            final(self).io.wire() == old(self).io.wire(),
            r matches Ok(n) ==> {
                &&& final(out)@.len() == old(out)@.len() + n
                &&& final(out)@.subrange(0, old(out)@.len() as int) == old(out)@
                &&& (final(self).read_state is Eof || final(self).read_state is Close)
            },
            r matches Ok(n) ==> ((plain_from(
                rs_model(old(self).read_state),
                old(self).io.inbox(),
            ) && head_ned(rs_model(old(self).read_state))) ==> final(out)@.skip(
                old(out)@.len() as int,
            ) == pending_data(rs_model(old(self).read_state), old(self).io.inbox())),
    {
        let ghost plain0 = plain_from(rs_model(old(self).read_state), old(self).io.inbox())
            && head_ned(rs_model(old(self).read_state));
        let mut scratch: Vec<u8> = Vec::new();
        let mut i: usize = 0;
        while i < 4096
            invariant
                i <= 4096,
                scratch@.len() == i,
            decreases 4096 - i,
        {
            scratch.push(0);
            i += 1;
        }
        let start_len = out.len();
        let mut total: usize = 0;
        proof {
            assert(out@.skip(start_len as int) =~= Seq::<u8>::empty());
        }
        loop
            invariant
                self.wf(),
                !(self.read_state is ProcessBuf),
                scratch@.len() == 4096,
                self.write_state == old(self).write_state,
                self.role == old(self).role,
                self.io.wire() == old(self).io.wire(),
                start_len == old(out)@.len(),
                out@.len() == start_len + total,
                out@.subrange(0, start_len as int) == old(out)@,
                plain0 == (plain_from(rs_model(old(self).read_state), old(self).io.inbox())
                    && head_ned(rs_model(old(self).read_state))),
                plain0 ==> {
                    &&& plain_from(rs_model(self.read_state), self.io.inbox())
                    &&& head_ned(rs_model(self.read_state))
                    &&& out@.skip(start_len as int) + pending_data(
                        rs_model(self.read_state),
                        self.io.inbox(),
                    ) == pending_data(rs_model(old(self).read_state), old(self).io.inbox())
                },
            decreases
                    self.io.inbox().len(),
                    (if self.read_state is Eof || self.read_state is Close {
                        0int
                    } else {
                        1int
                    }),
        {
            if self.is_read_end() {
                proof {
                    if plain0 {
                        assert(out@.skip(start_len as int) + Seq::<u8>::empty() =~= out@.skip(
                            start_len as int,
                        ));
                    }
                }
                return Ok(total);
            }
            let ghost pre_iter = *self;
            let ghost out_pre = out@;
            let n = match self.read(&mut scratch) {
                Ok(n) => n,
                Err(e) => {
                    return Err(e);
                },
            };
            let chunk = vstd::slice::slice_subrange(scratch.as_slice(), 0, n);
            out.extend_from_slice(chunk);
            proof {
                assert forall|k: int| 0 <= k < out@.len() implies #[trigger] out@[k] == (out_pre
                    + chunk@)[k] by {
                    if k >= out_pre.len() {
                        assert(vstd::pervasive::cloned::<u8>(chunk@[k - out_pre.len()], out@[k]));
                    }
                }
                assert(out@ =~= out_pre + chunk@);
                if plain0 {
                    assert(chunk@ =~= scratch@.take(n as int));
                    assert(out@.skip(start_len as int) =~= out_pre.skip(start_len as int)
                        + chunk@);
                    assert((out_pre.skip(start_len as int) + chunk@) + pending_data(
                        rs_model(self.read_state),
                        self.io.inbox(),
                    ) =~= out_pre.skip(start_len as int) + (chunk@ + pending_data(
                        rs_model(self.read_state),
                        self.io.inbox(),
                    )));
                }
            }
            let out_len = out.len();
            total = total + n;
            proof {
                assert(out@.subrange(0, start_len as int) =~= old(out)@);
            }
        }
    }
}

} // verus!
