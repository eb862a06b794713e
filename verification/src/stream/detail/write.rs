use vstd::prelude::*;
use crate::frame::{Fin, FrameHead, Mask, OpCode, PayloadLen};
use crate::frame::head::{spec_encode_head, spec_head_wf};
use crate::frame::length::spec_len_from_num;
use crate::role::RoleHelper;
use crate::stream::Stream;
use crate::stream::state::{HeadStore, WriteState};
use crate::transport::Transport;
use super::{min_len, spec_min_len};

verus! {

/// The head of an outgoing data frame: one final binary frame sized to the
/// caller's buffer, masked as the role demands.
pub open spec fn spec_data_frame_head(mask: Mask, len: u64) -> FrameHead {
    FrameHead { fin: Fin::Y, opcode: OpCode::Binary, mask, length: spec_len_from_num(len) }
}

/// The head bytes an attempt to write submits: the unflushed rest of the
/// stored head, or a fresh head sized to the payload when none is stored.
pub open spec fn spec_submitted_head<IO: Transport, R: RoleHelper, G>(
    pre: Stream<IO, R, G>,
    hs: HeadStore,
    buf: Seq<u8>,
) -> Seq<u8> {
    if hs.wr == 0 {
        spec_encode_head(spec_data_frame_head(pre.role.spec_mask(), buf.len() as u64))
    } else {
        hs.readable()
    }
}

/// What one attempt to write does, in terms of the bytes `w` the transport
/// accepted (read off the wire's growth): the accepted bytes are the front
/// of head-then-payload; 0 accepted parks the stream in `WriteZero`; a
/// partially accepted head stays stored and the caller gets 0; otherwise
/// the caller learns how many payload bytes went out, and the frame is
/// either finished or counted down in `WriteData`.
pub open spec fn write_some_post<IO: Transport, R: RoleHelper, G>(
    pre: Stream<IO, R, G>,
    post: Stream<IO, R, G>,
    buf: Seq<u8>,
    r: usize,
) -> bool {
    let w = post.io.wire().len() - pre.io.wire().len();
    match pre.write_state {
        WriteState::WriteZero => r == 0 && post.write_state is WriteZero && w == 0
            && post.io.wire() == pre.io.wire(),
        WriteState::WriteData(next) => {
            let len = spec_min_len(buf.len() as usize, next);
            &&& post.io.wire() == pre.io.wire() + buf.take(w as int)
            &&& w <= len
            &&& if w == 0 {
                post.write_state is WriteZero && r == 0
            } else if w == next {
                r == w && (post.write_state matches WriteState::WriteHead(h) && h.wr == 0)
            } else {
                r == w && post.write_state == WriteState::WriteData((next - w) as u64)
            }
        },
        WriteState::WriteHead(hs) => {
            let hb = spec_submitted_head(pre, hs, buf);
            let submitted = hb + buf;
            &&& post.io.wire() == pre.io.wire() + submitted.take(w as int)
            &&& w <= submitted.len()
            &&& if w == 0 {
                post.write_state is WriteZero && r == 0
            } else if w < hb.len() {
                r == 0 && (post.write_state matches WriteState::WriteHead(h2) && h2.readable()
                    == hb.skip(w as int))
            } else {
                &&& r == w - hb.len()
                &&& if w - hb.len() == buf.len() {
                    post.write_state matches WriteState::WriteHead(h2) && h2.wr == 0
                } else {
                    post.write_state == WriteState::WriteData((buf.len() - (w - hb.len())) as u64)
                }
            }
        },
    }
}

/// Drive the write state machine for one transport submission of `buf` as
/// payload; returns how many payload bytes the transport accepted.
pub fn write_some<IO: Transport, R: RoleHelper, G>(
    stream: &mut Stream<IO, R, G>,
    buf: &[u8],
) -> (r: usize)
    requires
        old(stream).wf(),
    ensures
        final(stream).wf(),
        final(stream).io.inbox() == old(stream).io.inbox(),
        final(stream).read_state == old(stream).read_state,
        final(stream).heartbeat == old(stream).heartbeat,
        final(stream).role == old(stream).role,
        write_some_post(*old(stream), *final(stream), buf@, r),
{
    let empty_head: Vec<u8> = Vec::new();
    match stream.write_state {
        WriteState::WriteZero => 0,
        WriteState::WriteHead(hs) => {
            let mut head_store = hs;
            if head_store.is_empty() {
                let head = FrameHead::new(
                    Fin::Y,
                    OpCode::Binary,
                    stream.role.write_mask_key(),
                    PayloadLen::from_num(buf.len() as u64),
                );
                assert(spec_head_wf(head));
                let mut tmp: Vec<u8> = Vec::new();
                let mut i: usize = 0;
                while i < 14
                    invariant
                        i <= 14,
                        tmp@.len() == i,
                    decreases 14 - i,
                {
                    tmp.push(0);
                    i += 1;
                }
                let hsz = head.head_size();
                let n = head.encode_unchecked(&mut tmp);
                let head_slice = vstd::slice::slice_subrange(tmp.as_slice(), 0, n);
                assert(head_slice@ =~= spec_encode_head(head));
                head_store = HeadStore::new_with_data(head_slice);
            }
            let ghost hb = spec_submitted_head(*old(stream), hs, buf@);
            assert(head_store.readable() == hb);
            let head_vec = head_store.read();
            let write_n = stream.io.write(head_vec.as_slice(), buf, 0, buf.len());
            proof {
                assert(buf@.subrange(0, buf@.len() as int) =~= buf@);
            }
            if write_n == 0 {
                stream.write_state = WriteState::WriteZero;
                return 0;
            }
            let head_len = head_store.rd_left();
            if write_n < head_len {
                head_store.advance_rd_pos(write_n);
                assert(head_store.readable() =~= hb.skip(write_n as int));
                stream.write_state = WriteState::WriteHead(head_store);
                return 0;
            }
            let data_n = write_n - head_len;
            if data_n == buf.len() {
                stream.write_state = WriteState::new();
            } else {
                stream.write_state = WriteState::WriteData((buf.len() - data_n) as u64);
            }
            data_n
        },
        WriteState::WriteData(next) => {
            let len = min_len(buf.len(), next);
            let write_n = stream.io.write(
                empty_head.as_slice(),
                buf,
                0,
                len,
            );
            proof {
                assert(empty_head@ + buf@.subrange(0, len as int) =~= buf@.subrange(0, len as int));
                assert(buf@.subrange(0, len as int).take(write_n as int) =~= buf@.take(
                    write_n as int,
                ));
            }
            if write_n == 0 {
                stream.write_state = WriteState::WriteZero;
                return 0;
            }
            if (write_n as u64) == next {
                stream.write_state = WriteState::new();
            } else {
                stream.write_state = WriteState::WriteData(next - (write_n as u64));
            }
            write_n
        },
    }
}

} // verus!
