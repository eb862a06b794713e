use vstd::prelude::*;
use crate::error::{FrameError, WsError};
use crate::frame::{FrameHead, Mask, OpCode};
use crate::frame::head::spec_decode_head;
use crate::frame::length::spec_len_to_num;
use crate::frame::mask::{apply_mask4_range, spec_unmask};
use crate::role::RoleHelper;
use crate::stream::Stream;
use crate::stream::state::{HeadStore, PingEffect, ProcOut, ReadModel, ReadState, rs_model};
use crate::transport::Transport;
use super::min_len;

verus! {

/// What the engine does with the bytes behind a decoded head `h`: data and
/// continuation payload is unmasked and kept; a ping's payload is unmasked
/// and remembered; a close ends the stream; a frame cut off by the end of
/// the span parks the machine mid-frame; then the next frame follows.
pub open spec fn spec_process_frame(h: FrameHead, rest: Seq<u8>) -> ProcOut
    decreases rest.len(), 1int,
{
    let flen = spec_len_to_num(h.length) as int;
    let avail = rest.len() as int;
    let d = if avail <= flen {
        avail
    } else {
        flen
    };
    match h.opcode {
        OpCode::Text => ProcOut::Fail(FrameError::UnsupportedOpcode),
        OpCode::Pong => ProcOut::Fail(FrameError::UnsupportedOpcode),
        OpCode::Close => ProcOut::Out { data: Seq::empty(), st: ReadModel::Close, ping: None },
        OpCode::Binary | OpCode::Continue => {
            let chunk = spec_unmask(h.mask, rest.take(d));
            if flen > avail {
                ProcOut::Out {
                    data: chunk,
                    st: ReadModel::Data { next: (flen - d) as u64, mask: h.mask },
                    ping: None,
                }
            } else {
                match spec_process(rest.skip(d)) {
                    ProcOut::Fail(e) => ProcOut::Fail(e),
                    ProcOut::Out { data, st, ping } => ProcOut::Out {
                        data: chunk + data,
                        st,
                        ping,
                    },
                }
            }
        },
        OpCode::Ping => {
            if flen > 125 {
                ProcOut::Fail(FrameError::IllegalData)
            } else {
                let pdata = spec_unmask(h.mask, rest.take(d));
                if flen > avail {
                    ProcOut::Out {
                        data: Seq::empty(),
                        st: ReadModel::Ping { next: (flen - d) as u8, mask: h.mask },
                        ping: Some(PingEffect { data: pdata, complete: false }),
                    }
                } else {
                    match spec_process(rest.skip(d)) {
                        ProcOut::Fail(e) => ProcOut::Fail(e),
                        ProcOut::Out { data, st, ping } => ProcOut::Out {
                            data,
                            st,
                            ping: if ping is Some {
                                ping
                            } else {
                                Some(PingEffect { data: pdata, complete: true })
                            },
                        },
                    }
                }
            }
        },
    }
}

/// What the engine does with a span of buffered bytes: a span too short for
/// a head is carried to the next read; otherwise the head is decoded and
/// the frame's bytes are processed.
pub open spec fn spec_process(s: Seq<u8>) -> ProcOut
    decreases s.len(), 0int,
    via spec_process_decreases
{
    match spec_decode_head(s) {
        Err(e) => if e == FrameError::NotEnoughData {
            ProcOut::Out { data: Seq::empty(), st: ReadModel::Head(s), ping: None }
        } else {
            ProcOut::Fail(e)
        },
        Ok((h, k)) => spec_process_frame(h, s.skip(k)),
    }
}

#[via_fn]
proof fn spec_process_decreases(s: Seq<u8>) {
    lemma_decode_head_bounds(s);
}

/// A decoded head took at least its two flag bytes and no more than the
/// span offered.
pub proof fn lemma_decode_head_bounds(s: Seq<u8>)
    ensures
        spec_decode_head(s) matches Ok((h, k)) ==> 2 <= k <= s.len(),
{
}

/// `NotEnoughData` only comes out of spans shorter than the largest head.
pub proof fn lemma_decode_head_short(s: Seq<u8>)
    ensures
        spec_decode_head(s) == Err::<(FrameHead, int), FrameError>(FrameError::NotEnoughData)
            ==> s.len() < 14,
{
}

/// Bounds of a processed span: the data fits in the span; a mid-ping rest
/// state still fits the 125-byte ping buffer next to the bytes already
/// taken; mid-frame byte counts are positive; a carried head tail is short.
pub proof fn lemma_process_bounds(s: Seq<u8>)
    ensures
        spec_process(s) matches ProcOut::Out { data, st, ping } ==> {
            &&& data.len() <= s.len()
            &&& (st matches ReadModel::Head(t) ==> t.len() < 14)
            &&& (st matches ReadModel::Data { next, .. } ==> next >= 1)
            &&& (st matches ReadModel::Ping { next, .. } ==> 1 <= next
                && (ping matches Some(pe) && pe.data.len() + next <= 125 && !pe.complete))
            &&& (ping matches Some(pe) ==> pe.data.len() <= 125)
            &&& !(st is Eof)
        },
    decreases s.len(),
{
    lemma_decode_head_bounds(s);
    lemma_decode_head_short(s);
    match spec_decode_head(s) {
        Err(e) => {},
        Ok((h, k)) => {
            let rest = s.skip(k);
            let flen = spec_len_to_num(h.length) as int;
            let avail = rest.len() as int;
            let d = if avail <= flen {
                avail
            } else {
                flen
            };
            if (h.opcode == OpCode::Binary || h.opcode == OpCode::Continue) && flen <= avail {
                lemma_process_bounds(rest.skip(d));
            }
            if h.opcode == OpCode::Ping && flen <= 125 && flen <= avail {
                lemma_process_bounds(rest.skip(d));
            }
        },
    }
}

/// A shared prefix shares every subrange of it.
proof fn lemma_prefix_preserved(a: Seq<u8>, b: Seq<u8>, n: int, lo: int, hi: int)
    requires
        0 <= lo <= hi <= n,
        n <= a.len(),
        a.len() == b.len(),
        a.subrange(0, n) == b.subrange(0, n),
    ensures
        a.subrange(lo, hi) == b.subrange(lo, hi),
{
    assert(a.subrange(lo, hi) =~= a.subrange(0, n).subrange(lo, hi));
    assert(b.subrange(lo, hi) =~= b.subrange(0, n).subrange(lo, hi));
}

/// Two adjacent subranges concatenate to the spanning subrange.
proof fn lemma_chunk_concat(nbuf: Seq<u8>, processed: int, d: int, chunk: Seq<u8>, data: Seq<u8>)
    requires
        0 <= processed,
        0 <= d,
        processed + d + data.len() <= nbuf.len(),
        nbuf.subrange(processed, processed + d) == chunk,
        nbuf.subrange(processed + d, processed + d + data.len()) == data,
    ensures
        nbuf.subrange(processed, processed + d + data.len()) == chunk + data,
{
    assert(nbuf.subrange(processed, processed + d + data.len()) =~= chunk + data);
}

/// Copy `len` bytes from `buf[src..]` down to `buf[dst..]`; the ranges may
/// overlap since the copy moves bytes toward the front.
fn copy_down(buf: &mut Vec<u8>, src: usize, dst: usize, len: usize)
    requires
        dst <= src,
        src + len <= old(buf)@.len(),
    ensures
        final(buf)@.len() == old(buf)@.len(),
        final(buf)@.subrange(dst as int, dst + len) == old(buf)@.subrange(src as int, src + len),
        forall|j: int| 0 <= j < old(buf)@.len() && !(dst <= j < dst + len) ==> final(buf)@[j]
            == old(buf)@[j],
{
    let buf_len = buf.len();
    let mut i: usize = 0;
    while i < len
        invariant
            i <= len,
            dst <= src,
            src + len <= buf@.len() == old(buf)@.len(),
            buf@.len() <= usize::MAX,
            forall|j: int| 0 <= j < i ==> #[trigger] buf@[dst + j] == old(buf)@[src + j],
            forall|j: int| 0 <= j < buf@.len() && !(dst <= j < dst + i) ==> buf@[j] == old(
                buf,
            )@[j],
        decreases len - i,
    {
        let b = buf[src + i];
        proof {
            assert(src + i >= dst + i);
            assert(buf@[src + i] == old(buf)@[src + i]);
        }
        buf.set(dst + i, b);
        i += 1;
    }
    assert forall|k: int| 0 <= k < len implies #[trigger] buf@.subrange(dst as int, dst + len)[k]
        == old(buf)@.subrange(src as int, src + len)[k] by {
        assert(buf@[dst + k] == old(buf)@[src + k]);
    }
    assert(buf@.subrange(dst as int, dst + len) =~= old(buf)@.subrange(src as int, src + len));
}

/// How a processed span relates the stream and buffer before and after:
/// exactly the spec's data lands behind the already-produced bytes, the
/// stream rests in the spec's state, and the spec's ping effect (if any)
/// replaces the heartbeat.
pub open spec fn process_buf_post<IO: Transport, R: RoleHelper, G>(
    pre: Stream<IO, R, G>,
    post: Stream<IO, R, G>,
    nbuf: Seq<u8>,
    out: ProcOut,
    processed: int,
    r: Result<usize, WsError>,
) -> bool {
    match out {
        ProcOut::Fail(e) => r == Err::<usize, WsError>(WsError::Frame(e)),
        ProcOut::Out { data, st, ping } => {
            &&& r matches Ok(n) && n == processed + data.len()
            &&& nbuf.subrange(processed, processed + data.len()) == data
            &&& rs_model(post.read_state) == st
            &&& match ping {
                None => post.heartbeat == pre.heartbeat,
                Some(pe) => post.heartbeat.ping_store.readable() == pe.data
                    && post.heartbeat.is_complete == pe.complete,
            }
        },
    }
}

/// Process the undecoded span `buf[beg..end]`, landing payload at
/// `buf[processed..]`, until the span runs out, the machine parks mid-frame
/// or on a close, or a frame is malformed.
pub fn process_buf<IO: Transport, R: RoleHelper, G>(
    stream: &mut Stream<IO, R, G>,
    buf: &mut Vec<u8>,
    beg: usize,
    end: usize,
    processed: usize,
) -> (r: Result<usize, WsError>)
    requires
        old(stream).wf(),
        processed <= beg <= end <= old(buf)@.len(),
    ensures
        final(stream).wf(),
        final(stream).io == old(stream).io,
        final(stream).write_state == old(stream).write_state,
        final(stream).role == old(stream).role,
        final(buf)@.len() == old(buf)@.len(),
        final(buf)@.subrange(0, processed as int) == old(buf)@.subrange(0, processed as int),
        process_buf_post(
            *old(stream),
            *final(stream),
            final(buf)@,
            spec_process(old(buf)@.subrange(beg as int, end as int)),
            processed as int,
            r,
        ),
        r matches Ok(n) ==> processed <= n <= end,
        r is Ok ==> !(final(stream).read_state is ProcessBuf),
    decreases end - beg, 0int,
{
    let ghost span = buf@.subrange(beg as int, end as int);
    proof {
        lemma_decode_head_bounds(span);
        lemma_decode_head_short(span);
        lemma_process_bounds(span);
    }
    stream.read_state = ReadState::ProcessBuf { beg, end, processed };
    let head_slice = vstd::slice::slice_subrange(buf.as_slice(), beg, end);
    let (head, k) = match FrameHead::decode(head_slice) {
        Ok(x) => x,
        Err(e) => {
            match e {
                FrameError::NotEnoughData => {
                    proof {
                        assert(head_slice@ == span);
                        assert(spec_process(span) == (ProcOut::Out {
                            data: Seq::<u8>::empty(),
                            st: ReadModel::Head(span),
                            ping: None,
                        }));
                    }
                    if beg == end {
                        stream.read_state = ReadState::new();
                        proof {
                            assert(span =~= Seq::<u8>::empty());
                            match stream.read_state {
                                ReadState::ReadHead(h) => {
                                    assert(h.readable() =~= Seq::<u8>::empty());
                                },
                                _ => {},
                            }
                        }
                    } else {
                        stream.read_state = ReadState::ReadHead(
                            HeadStore::new_with_data(head_slice),
                        );
                    }
                    proof {
                        assert(rs_model(stream.read_state) == ReadModel::Head(span));
                        assert(buf@.subrange(processed as int, processed as int)
                            =~= Seq::<u8>::empty());
                    }
                    return Ok(processed);
                },
                _ => {
                    return Err(WsError::Frame(e));
                },
            }
        },
    };
    let beg2 = beg + k;
    proof {
        assert(span.skip(k as int) =~= buf@.subrange(beg2 as int, end as int));
    }
    process_frame(stream, buf, beg2, end, processed, head)
}

/// Process the bytes behind a head that was just decoded off the front of
/// the span, then whatever frames follow in the span.
#[verifier::rlimit(100)]
fn process_frame<IO: Transport, R: RoleHelper, G>(
    stream: &mut Stream<IO, R, G>,
    buf: &mut Vec<u8>,
    beg2: usize,
    end: usize,
    processed: usize,
    head: FrameHead,
) -> (r: Result<usize, WsError>)
    requires
        old(stream).wf(),
        old(stream).read_state is ProcessBuf,
        processed <= beg2 <= end <= old(buf)@.len(),
    ensures
        final(stream).wf(),
        final(stream).io == old(stream).io,
        final(stream).write_state == old(stream).write_state,
        final(stream).role == old(stream).role,
        final(buf)@.len() == old(buf)@.len(),
        final(buf)@.subrange(0, processed as int) == old(buf)@.subrange(0, processed as int),
        process_buf_post(
            *old(stream),
            *final(stream),
            final(buf)@,
            spec_process_frame(head, old(buf)@.subrange(beg2 as int, end as int)),
            processed as int,
            r,
        ),
        r matches Ok(n) ==> processed <= n <= end,
        r is Ok ==> !(final(stream).read_state is ProcessBuf),
    decreases end - beg2, 1int,
{
    let ghost rest = buf@.subrange(beg2 as int, end as int);
    let flen = head.length.to_num();
    let avail = end - beg2;
    let d = min_len(avail, flen);
    match head.opcode {
        OpCode::Text | OpCode::Pong => Err(WsError::Frame(FrameError::UnsupportedOpcode)),
        OpCode::Close => {
            stream.read_state = ReadState::Close;
            proof {
                assert(buf@.subrange(processed as int, processed as int) =~= Seq::<u8>::empty());
            }
            Ok(processed)
        },
        OpCode::Binary | OpCode::Continue => {
            let ghost chunk = spec_unmask(head.mask, rest.take(d as int));
            if d > 0 {
                let ghost pre_mask = buf@;
                if let Mask::Key(key) = head.mask {
                    apply_mask4_range(key, buf, beg2, beg2 + d);
                }
                proof {
                    assert(pre_mask.subrange(beg2 as int, beg2 + d) =~= rest.take(d as int));
                    assert(buf@.subrange(beg2 as int, beg2 + d) =~= chunk);
                }
                copy_down(buf, beg2, processed, d);
            }
            proof {
                assert(buf@.subrange(processed as int, processed + d) =~= chunk);
            }
            let beg3 = beg2 + d;
            let processed2 = processed + d;
            if flen > avail as u64 {
                stream.read_state = ReadState::ReadData {
                    next: flen - (d as u64),
                    mask: head.mask,
                };
                return Ok(processed2);
            }
            let ghost buf_mid = buf@;
            proof {
                assert(buf_mid.subrange(beg3 as int, end as int) =~= rest.skip(d as int));
            }
            let r = process_buf(stream, buf, beg3, end, processed2);
            proof {
                lemma_process_bounds(rest.skip(d as int));
                match spec_process(rest.skip(d as int)) {
                    ProcOut::Out { data, st, ping } => {
                        lemma_prefix_preserved(
                            buf@,
                            buf_mid,
                            processed2 as int,
                            processed as int,
                            processed + d,
                        );
                        lemma_chunk_concat(buf@, processed as int, d as int, chunk, data);
                    },
                    ProcOut::Fail(_) => {},
                }
            }
            r
        },
        OpCode::Ping => {
            if flen > 125 {
                return Err(WsError::Frame(FrameError::IllegalData));
            }
            let ghost pdata = spec_unmask(head.mask, rest.take(d as int));
            if d > 0 {
                let ghost pre_mask = buf@;
                if let Mask::Key(key) = head.mask {
                    apply_mask4_range(key, buf, beg2, beg2 + d);
                }
                proof {
                    assert(pre_mask.subrange(beg2 as int, beg2 + d) =~= rest.take(d as int));
                    assert(buf@.subrange(beg2 as int, beg2 + d) =~= pdata);
                }
                let pslice = vstd::slice::slice_subrange(buf.as_slice(), beg2, beg2 + d);
                stream.heartbeat.ping_store.replace_with_data(pslice);
            } else {
                stream.heartbeat.ping_store.reset();
                proof {
                    assert(stream.heartbeat.ping_store.readable() =~= pdata);
                }
            }
            let beg3 = beg2 + d;
            if flen > avail as u64 {
                stream.heartbeat.is_complete = false;
                stream.read_state = ReadState::ReadPing {
                    next: (flen - (d as u64)) as u8,
                    mask: head.mask,
                };
                proof {
                    assert(buf@.subrange(processed as int, processed as int)
                        =~= Seq::<u8>::empty());
                }
                return Ok(processed);
            }
            stream.heartbeat.is_complete = true;
            let ghost buf_mid = buf@;
            proof {
                assert(buf_mid.subrange(beg3 as int, end as int) =~= rest.skip(d as int));
            }
            let r = process_buf(stream, buf, beg3, end, processed);
            proof {
                lemma_process_bounds(rest.skip(d as int));
            }
            r
        },
    }
}


/// What one attempt to read does, by the state it starts in, over the bytes
/// the transport delivered (`consumed`, read off the inbox's shrinking). In
/// a terminal state nothing happens; between frames, the stored head bytes
/// and the delivered bytes are processed as frames; mid-frame, delivered
/// bytes continue the frame's payload (or the ping buffer) and any surplus
/// is processed as new frames; a transport that delivers nothing parks the
/// stream at `Eof`.
pub open spec fn read_some_post<IO: Transport, R: RoleHelper, G>(
    pre: Stream<IO, R, G>,
    post: Stream<IO, R, G>,
    obuf: Seq<u8>,
    nbuf: Seq<u8>,
    r: Result<usize, WsError>,
) -> bool {
    let consumed = pre.io.inbox().len() - post.io.inbox().len();
    &&& post.io.inbox() == pre.io.inbox().skip(consumed as int)
    &&& match pre.read_state {
        ReadState::Eof => r == Ok::<usize, WsError>(0usize) && post.read_state is Eof && consumed
            == 0 && post.heartbeat == pre.heartbeat && nbuf == obuf,
        ReadState::Close => r == Ok::<usize, WsError>(0usize) && post.read_state is Close
            && consumed == 0 && post.heartbeat == pre.heartbeat && nbuf == obuf,
        ReadState::ReadHead(h) => {
            if pre.io.inbox().len() == 0 {
                r == Ok::<usize, WsError>(0usize) && post.read_state is Eof && post.heartbeat
                    == pre.heartbeat
            } else {
                &&& 1 <= consumed
                &&& process_buf_post(
                    pre,
                    post,
                    nbuf,
                    spec_process(h.readable() + pre.io.inbox().take(consumed as int)),
                    0,
                    r,
                )
            }
        },
        ReadState::ReadData { next, mask } => {
            if pre.io.inbox().len() == 0 {
                r == Ok::<usize, WsError>(0usize) && post.read_state is Eof && post.heartbeat
                    == pre.heartbeat
            } else if consumed < next {
                &&& 1 <= consumed
                &&& r matches Ok(n) && n == consumed
                &&& nbuf.subrange(0, consumed as int) == spec_unmask(
                    mask,
                    pre.io.inbox().take(consumed as int),
                )
                &&& post.read_state == ReadState::ReadData { next: (next - consumed) as u64, mask }
                &&& post.heartbeat == pre.heartbeat
            } else {
                &&& 1 <= consumed
                &&& nbuf.subrange(0, next as int) == spec_unmask(
                    mask,
                    pre.io.inbox().take(next as int),
                )
                &&& process_buf_post(
                    pre,
                    post,
                    nbuf,
                    spec_process(pre.io.inbox().subrange(next as int, consumed as int)),
                    next as int,
                    r,
                )
            }
        },
        ReadState::ReadPing { next, mask } => {
            if pre.io.inbox().len() == 0 {
                r == Ok::<usize, WsError>(0usize) && post.read_state is Eof && post.heartbeat
                    == pre.heartbeat && nbuf == obuf
            } else {
                &&& r == Ok::<usize, WsError>(0usize)
                &&& 1 <= consumed <= next
                &&& nbuf == obuf
                &&& post.heartbeat.ping_store.readable() == pre.heartbeat.ping_store.readable()
                    + spec_unmask(mask, pre.io.inbox().take(consumed as int))
                &&& if consumed == next {
                    post.heartbeat.is_complete && (post.read_state matches ReadState::ReadHead(h2)
                        && h2.rd == 0 && h2.wr == 0)
                } else {
                    post.read_state == ReadState::ReadPing { next: (next - consumed) as u8, mask }
                        && post.heartbeat.is_complete == pre.heartbeat.is_complete
                }
            }
        },
        ReadState::ProcessBuf { .. } => r == Ok::<usize, WsError>(0usize) && consumed == 0,
    }
}

/// Drive the read state machine with at most one transport read, landing
/// any application payload at the front of `buf`, which must hold at least
/// the 14 bytes of a largest frame head.
pub fn read_some<IO: Transport, R: RoleHelper, G>(
    stream: &mut Stream<IO, R, G>,
    buf: &mut Vec<u8>,
) -> (r: Result<usize, WsError>)
    requires
        old(stream).wf(),
        old(buf)@.len() >= 14,
    ensures
        final(stream).wf(),
        final(buf)@.len() == old(buf)@.len(),
        final(stream).write_state == old(stream).write_state,
        final(stream).role == old(stream).role,
        final(stream).io.wire() == old(stream).io.wire(),
        final(stream).io.inbox().len() <= old(stream).io.inbox().len(),
        read_some_post(*old(stream), *final(stream), old(buf)@, final(buf)@, r),
        r matches Ok(n) ==> n <= old(buf)@.len(),
        r is Ok && !(old(stream).read_state is ProcessBuf) ==> !(final(
            stream
        ).read_state is ProcessBuf),
        (r matches Ok(n) && n == 0 && !(final(stream).read_state is Eof) && !(final(
            stream
        ).read_state is Close) && !(final(stream).read_state is ProcessBuf)) ==> final(
            stream
        ).io.inbox().len() < old(stream).io.inbox().len(),
        (r matches Ok(n) && n > 0) ==> final(stream).io.inbox().len() < old(
            stream
        ).io.inbox().len(),
{
    let buf_len = buf.len();
    proof {
        assert(stream.io.inbox().skip(0) =~= stream.io.inbox());
    }
    match stream.read_state {
        ReadState::Eof => Ok(0),
        ReadState::Close => Ok(0),
        ReadState::ProcessBuf { .. } => Ok(0),
        ReadState::ReadHead(h) => {
            let hs_len = h.rd_left();
            let mut i: usize = 0;
            while i < hs_len
                invariant
                    i <= hs_len,
                    h.wf(),
                    hs_len == h.readable().len() <= 13,
                    buf@.len() == old(buf)@.len() >= 14,
                    forall|j: int| 0 <= j < i ==> buf@[j] == h.readable()[j],
                decreases hs_len - i,
            {
                buf.set(i, h.get(h.rd_pos() + i));
                i += 1;
            }
            let n = stream.io.read(buf, hs_len, buf_len);
            if n == 0 {
                stream.read_state = ReadState::Eof;
                return Ok(0);
            }
            let ghost inbox0 = old(stream).io.inbox();
            proof {
                assert(buf@.subrange(0, hs_len + n) =~= h.readable() + inbox0.take(n as int));
            }
            process_buf(stream, buf, 0, hs_len + n, 0)
        },
        ReadState::ReadData { next, mask } => {
            let n = stream.io.read(buf, 0, buf_len);
            if n == 0 {
                stream.read_state = ReadState::Eof;
                return Ok(0);
            }
            let ghost inbox0 = old(stream).io.inbox();
            let len = min_len(n, next);
            let ghost pre_mask = buf@;
            if let Mask::Key(key) = mask {
                apply_mask4_range(key, buf, 0, len);
            }
            proof {
                assert(pre_mask.subrange(0, len as int) =~= inbox0.take(len as int));
                assert(buf@.subrange(0, len as int) =~= spec_unmask(
                    mask,
                    inbox0.take(len as int),
                ));
            }
            if next > n as u64 {
                stream.read_state = ReadState::ReadData { next: next - (n as u64), mask };
                return Ok(n);
            }
            let ghost buf_mid = buf@;
            proof {
                assert forall|j: int| len <= j < n implies #[trigger] buf_mid[j]
                    == inbox0[j] by {
                    assert(pre_mask.subrange(0, n as int)[j] == inbox0.take(n as int)[j]);
                }
                assert(buf_mid.subrange(len as int, n as int) =~= inbox0.subrange(
                    len as int,
                    n as int,
                ));
            }
            let r = process_buf(stream, buf, len, n, len);
            proof {
                lemma_process_bounds(inbox0.subrange(len as int, n as int));
                lemma_prefix_preserved(buf@, buf_mid, len as int, 0, len as int);
            }
            r
        },
        ReadState::ReadPing { next, mask } => {
            let window = next as usize;
            let mut tmp: Vec<u8> = Vec::new();
            let mut i: usize = 0;
            while i < window
                invariant
                    i <= window,
                    tmp@.len() == i,
                decreases window - i,
            {
                tmp.push(0);
                i += 1;
            }
            let n = stream.io.read(&mut tmp, 0, window);
            if n == 0 {
                stream.read_state = ReadState::Eof;
                return Ok(0);
            }
            let ghost inbox0 = old(stream).io.inbox();
            let ghost pre_mask = tmp@;
            if let Mask::Key(key) = mask {
                apply_mask4_range(key, &mut tmp, 0, n);
            }
            proof {
                assert(pre_mask.subrange(0, n as int) =~= inbox0.take(n as int));
                assert(tmp@.subrange(0, n as int) =~= spec_unmask(mask, inbox0.take(n as int)));
            }
            let pslice = vstd::slice::slice_subrange(tmp.as_slice(), 0, n);
            stream.heartbeat.ping_store.push_bytes(pslice);
            if n == window {
                stream.heartbeat.is_complete = true;
                stream.read_state = ReadState::new();
            } else {
                stream.read_state = ReadState::ReadPing { next: next - (n as u8), mask };
            }
            Ok(0)
        },
    }
}


/// One data frame as the frame-stream law sees it: a head and the payload
/// bytes behind it on the wire.
pub ghost struct FrameSpec {
    pub head: crate::frame::FrameHead,
    pub payload: Seq<u8>,
}

/// A legal run of data frames: each head is legal, carries a data or
/// continuation opcode, and announces exactly its payload's length.
pub open spec fn frames_legal(fs: Seq<FrameSpec>) -> bool {
    forall|i: int| 0 <= i < fs.len() ==> {
        &&& crate::frame::head::spec_head_legal(#[trigger] fs[i].head)
        &&& (fs[i].head.opcode is Binary || fs[i].head.opcode is Continue)
        &&& spec_len_to_num(fs[i].head.length) == fs[i].payload.len()
    }
}

/// The wire image of a run of frames: each head followed by its payload.
pub open spec fn frames_image(fs: Seq<FrameSpec>) -> Seq<u8>
    decreases fs.len(),
{
    if fs.len() == 0 {
        Seq::empty()
    } else {
        crate::frame::head::spec_encode_head(fs[0].head) + fs[0].payload + frames_image(fs.skip(1))
    }
}

/// What an application reads out of a run of frames: the payloads, each
/// unmasked with its frame's key, in order.
pub open spec fn frames_data(fs: Seq<FrameSpec>) -> Seq<u8>
    decreases fs.len(),
{
    if fs.len() == 0 {
        Seq::empty()
    } else {
        spec_unmask(fs[0].head.mask, fs[0].payload) + frames_data(fs.skip(1))
    }
}

/// Data frames in front of further bytes pass their unmasked payloads
/// through: processing the image of a legal run of data frames followed by
/// any suffix prepends the run's payloads to whatever the suffix yields.
#[verifier::rlimit(100)]
#[verifier::spinoff_prover]
pub proof fn lemma_process_data_prefix(fs: Seq<FrameSpec>, suffix: Seq<u8>)
    requires
        frames_legal(fs),
    ensures
        spec_process(frames_image(fs) + suffix) == (match spec_process(suffix) {
            ProcOut::Fail(e) => ProcOut::Fail(e),
            ProcOut::Out { data, st, ping } => ProcOut::Out {
                data: frames_data(fs) + data,
                st,
                ping,
            },
        }),
    decreases fs.len(),
{
    if fs.len() == 0 {
        assert(frames_image(fs) + suffix =~= suffix);
        match spec_process(suffix) {
            ProcOut::Fail(e) => {},
            ProcOut::Out { data, st, ping } => {
                assert(frames_data(fs) + data =~= data);
            },
        }
    } else {
        let h = fs[0].head;
        let p = fs[0].payload;
        let hb = crate::frame::head::spec_encode_head(h);
        let s = frames_image(fs) + suffix;
        let tail_img = frames_image(fs.skip(1)) + suffix;
        assert(s =~= hb + (p + tail_img));
        crate::frame::head::lemma_head_roundtrip(h, p + tail_img);
        let k = crate::frame::head::spec_head_size(h);
        let rest = s.skip(k);
        assert(rest =~= p + tail_img);
        let flen = spec_len_to_num(h.length) as int;
        assert(flen == p.len());
        assert(rest.take(flen) =~= p);
        assert(rest.skip(flen) =~= tail_img);
        lemma_process_data_prefix(fs.skip(1), suffix);
        match spec_process(suffix) {
            ProcOut::Fail(e) => {},
            ProcOut::Out { data, st, ping } => {
                assert(frames_data(fs) + data =~= spec_unmask(h.mask, p) + (frames_data(fs.skip(1))
                    + data));
            },
        }
    }
}

/// Processing the whole image of a legal run of data frames followed by a
/// close frame yields exactly the concatenation of the unmasked payloads
/// and rests at `Close`.
pub proof fn lemma_process_frame_stream(fs: Seq<FrameSpec>, close: crate::frame::FrameHead)
    requires
        frames_legal(fs),
        crate::frame::head::spec_head_legal(close),
        close.opcode is Close,
    ensures
        spec_process(frames_image(fs) + crate::frame::head::spec_encode_head(close))
            == (ProcOut::Out { data: frames_data(fs), st: ReadModel::Close, ping: None }),
{
    let cb = crate::frame::head::spec_encode_head(close);
    crate::frame::head::lemma_head_roundtrip(close, Seq::empty());
    assert(cb =~= cb + Seq::<u8>::empty());
    lemma_process_data_prefix(fs, cb);
    assert(frames_data(fs) + Seq::<u8>::empty() =~= frames_data(fs));
}

/// One legal, fully delivered ping in front of further bytes: the ping is
/// remembered complete, and whatever the rest yields passes through, as
/// long as the rest remembers no later ping.
#[verifier::rlimit(100)]
#[verifier::spinoff_prover]
proof fn lemma_process_ping_step(
    ping_head: crate::frame::FrameHead,
    ping_payload: Seq<u8>,
    rest_img: Seq<u8>,
)
    requires
        crate::frame::head::spec_head_legal(ping_head),
        ping_head.opcode is Ping,
        spec_len_to_num(ping_head.length) == ping_payload.len(),
        ping_payload.len() <= 125,
        spec_process(rest_img) matches ProcOut::Out { ping: None, .. },
    ensures
        spec_process(
            crate::frame::head::spec_encode_head(ping_head) + ping_payload + rest_img,
        ) == (match spec_process(rest_img) {
            ProcOut::Fail(e) => ProcOut::Fail(e),
            ProcOut::Out { data, st, ping } => ProcOut::Out {
                data,
                st,
                ping: Some(
                    PingEffect { data: spec_unmask(ping_head.mask, ping_payload), complete: true },
                ),
            },
        }),
{
    let hb = crate::frame::head::spec_encode_head(ping_head);
    let suffix = hb + ping_payload + rest_img;
    assert(suffix =~= hb + (ping_payload + rest_img));
    crate::frame::head::lemma_head_roundtrip(ping_head, ping_payload + rest_img);
    let k = crate::frame::head::spec_head_size(ping_head);
    let rest = suffix.skip(k);
    assert(rest =~= ping_payload + rest_img);
    let flen = spec_len_to_num(ping_head.length) as int;
    assert(rest.take(flen) =~= ping_payload);
    assert(rest.skip(flen) =~= rest_img);
}

/// A legal ping between two legal runs of data frames: the application
/// data is exactly the two runs' unmasked payloads, and the heartbeat
/// holds the ping's unmasked payload, complete.
pub proof fn lemma_process_ping_interleaved(
    pre: Seq<FrameSpec>,
    ping_head: crate::frame::FrameHead,
    ping_payload: Seq<u8>,
    post: Seq<FrameSpec>,
    close: crate::frame::FrameHead,
)
    requires
        frames_legal(pre),
        frames_legal(post),
        crate::frame::head::spec_head_legal(ping_head),
        ping_head.opcode is Ping,
        spec_len_to_num(ping_head.length) == ping_payload.len(),
        ping_payload.len() <= 125,
        crate::frame::head::spec_head_legal(close),
        close.opcode is Close,
    ensures
        spec_process(
            frames_image(pre) + (crate::frame::head::spec_encode_head(ping_head) + ping_payload)
                + frames_image(post) + crate::frame::head::spec_encode_head(close),
        ) == (ProcOut::Out {
            data: frames_data(pre) + frames_data(post),
            st: ReadModel::Close,
            ping: Some(
                PingEffect { data: spec_unmask(ping_head.mask, ping_payload), complete: true },
            ),
        }),
{
    let hb = crate::frame::head::spec_encode_head(ping_head);
    let cb = crate::frame::head::spec_encode_head(close);
    let rest_img = frames_image(post) + cb;
    let suffix = hb + ping_payload + rest_img;
    lemma_process_frame_stream(post, close);
    lemma_process_ping_step(ping_head, ping_payload, rest_img);
    lemma_process_data_prefix(pre, suffix);
    assert(frames_image(pre) + (hb + ping_payload) + frames_image(post) + cb =~= frames_image(pre)
        + suffix);
}


/// The application data a span of bytes yields before the machine parks,
/// closes, fails or runs out: like `spec_process`, but keeping the data
/// gathered up to a failure.
pub open spec fn produced_data(s: Seq<u8>) -> Seq<u8>
    decreases s.len(), 0int,
    via produced_data_decreases
{
    match spec_decode_head(s) {
        Err(_) => Seq::empty(),
        Ok((h, k)) => {
            let rest = s.skip(k);
            let flen = spec_len_to_num(h.length) as int;
            let avail = rest.len() as int;
            let d = if avail <= flen {
                avail
            } else {
                flen
            };
            match h.opcode {
                OpCode::Text => Seq::empty(),
                OpCode::Pong => Seq::empty(),
                OpCode::Close => Seq::empty(),
                OpCode::Binary | OpCode::Continue => {
                    let chunk = spec_unmask(h.mask, rest.take(d));
                    if flen > avail {
                        chunk
                    } else {
                        chunk + produced_data(rest.skip(d))
                    }
                },
                OpCode::Ping => {
                    if flen > 125 || flen > avail {
                        Seq::empty()
                    } else {
                        produced_data(rest.skip(d))
                    }
                },
            }
        },
    }
}

#[via_fn]
proof fn produced_data_decreases(s: Seq<u8>) {
    lemma_decode_head_bounds(s);
}

/// No frame decoded out of this span carries a non-zero mask key. Payload
/// unmasking restarts its key phase at every transport read, so only for
/// such spans is the data produced independent of the chunking.
pub open spec fn stream_plain(s: Seq<u8>) -> bool
    decreases s.len(), 0int,
    via stream_plain_decreases
{
    match spec_decode_head(s) {
        Err(_) => true,
        Ok((h, k)) => {
            let rest = s.skip(k);
            let flen = spec_len_to_num(h.length) as int;
            let avail = rest.len() as int;
            let d = if avail <= flen {
                avail
            } else {
                flen
            };
            &&& !(h.mask is Key)
            &&& match h.opcode {
                OpCode::Binary | OpCode::Continue => flen <= avail ==> stream_plain(rest.skip(d)),
                OpCode::Ping => flen <= 125 && flen <= avail ==> stream_plain(rest.skip(d)),
                _ => true,
            }
        },
    }
}

#[via_fn]
proof fn stream_plain_decreases(s: Seq<u8>) {
    lemma_decode_head_bounds(s);
}

/// The application data still to come out of a rest state and the bytes the
/// transport has yet to deliver, were the machine driven to the end.
pub open spec fn pending_data(st: ReadModel, rest: Seq<u8>) -> Seq<u8> {
    match st {
        ReadModel::Head(h) => produced_data(h + rest),
        ReadModel::Data { next, mask } => if rest.len() < next {
            spec_unmask(mask, rest)
        } else {
            spec_unmask(mask, rest.take(next as int)) + produced_data(rest.skip(next as int))
        },
        ReadModel::Ping { next, mask } => if rest.len() < next {
            Seq::empty()
        } else {
            produced_data(rest.skip(next as int))
        },
        ReadModel::Close => Seq::empty(),
        ReadModel::Eof => Seq::empty(),
    }
}

/// No non-zero mask key anywhere ahead: not on a frame in flight, and not
/// on any frame still to be decoded.
pub open spec fn plain_from(st: ReadModel, rest: Seq<u8>) -> bool {
    match st {
        ReadModel::Head(h) => stream_plain(h + rest),
        ReadModel::Data { next, mask } => !(mask is Key) && (rest.len() >= next ==> stream_plain(
            rest.skip(next as int),
        )),
        ReadModel::Ping { next, mask } => !(mask is Key) && (rest.len() >= next ==> stream_plain(
            rest.skip(next as int),
        )),
        ReadModel::Close => true,
        ReadModel::Eof => true,
    }
}

/// A carried head tail never holds a whole head: decoding it asks for more.
pub open spec fn head_ned(st: ReadModel) -> bool {
    st matches ReadModel::Head(h) ==> spec_decode_head(h) == Err::<(FrameHead, int), FrameError>(
        FrameError::NotEnoughData,
    )
}

/// Where processing succeeds, the data gathered before any stop is exactly
/// the processed data.
pub proof fn lemma_produced_matches_process(s: Seq<u8>)
    ensures
        spec_process(s) matches ProcOut::Out { data, .. } ==> produced_data(s) == data,
    decreases s.len(),
{
    lemma_decode_head_bounds(s);
    match spec_decode_head(s) {
        Err(_) => {
            assert(produced_data(s) =~= Seq::<u8>::empty());
        },
        Ok((h, k)) => {
            let rest = s.skip(k);
            let flen = spec_len_to_num(h.length) as int;
            let avail = rest.len() as int;
            let d = if avail <= flen {
                avail
            } else {
                flen
            };
            if (h.opcode == OpCode::Binary || h.opcode == OpCode::Continue) && flen <= avail {
                lemma_produced_matches_process(rest.skip(d));
            }
            if h.opcode == OpCode::Ping && flen <= 125 && flen <= avail {
                lemma_produced_matches_process(rest.skip(d));
            }
        },
    }
}

/// A head decoded out of a span decodes the same way out of any extension
/// of it: the decoder reads only the bytes it consumed.
pub proof fn lemma_decode_prefix(s: Seq<u8>, t: Seq<u8>)
    requires
        spec_decode_head(s) is Ok,
    ensures
        spec_decode_head(s + t) == spec_decode_head(s),
{
    lemma_decode_head_bounds(s);
    let u = s + t;
    assert(u[0] == s[0] && u[1] == s[1]);
    if s.len() >= 4 {
        assert(u.subrange(2, 4) =~= s.subrange(2, 4));
    }
    if s.len() >= 6 {
        assert(u.subrange(2, 6) =~= s.subrange(2, 6));
    }
    if s.len() >= 8 {
        assert(u.subrange(4, 8) =~= s.subrange(4, 8));
    }
    if s.len() >= 10 {
        assert(u.subrange(2, 10) =~= s.subrange(2, 10));
    }
    if s.len() >= 14 {
        assert(u.subrange(10, 14) =~= s.subrange(10, 14));
    }
}


/// Splicing: what a span yields, followed by what its rest state yields
/// over later bytes, is what the whole would have yielded, as long as no
/// mask key is in play (a key's phase restarts at each transport read).
#[verifier::rlimit(100)]
#[verifier::spinoff_prover]
pub proof fn lemma_produced_splice(s: Seq<u8>, t: Seq<u8>)
    requires
        stream_plain(s + t),
    ensures
        spec_process(s) matches ProcOut::Out { data, st, ping } ==> {
            &&& produced_data(s + t) == data + pending_data(st, t)
            &&& plain_from(st, t)
            &&& head_ned(st)
        },
    decreases s.len(),
{
    let u = s + t;
    lemma_decode_head_bounds(s);
    lemma_decode_head_bounds(u);
    match spec_decode_head(s) {
        Err(e) => {
            if e == FrameError::NotEnoughData {
                assert(Seq::<u8>::empty() + produced_data(u) =~= produced_data(u));
            }
        },
        Ok((h, k)) => {
            lemma_decode_prefix(s, t);
            let rest = s.skip(k);
            let restu = u.skip(k);
            assert(restu =~= rest + t);
            let flen = spec_len_to_num(h.length) as int;
            let avail = rest.len() as int;
            let availu = restu.len() as int;
            let d = if avail <= flen {
                avail
            } else {
                flen
            };
            let du = if availu <= flen {
                availu
            } else {
                flen
            };
            assert(!(h.mask is Key));
            match h.opcode {
                OpCode::Text | OpCode::Pong => {},
                OpCode::Close => {
                    assert(Seq::<u8>::empty() + Seq::<u8>::empty() =~= Seq::<u8>::empty());
                },
                OpCode::Binary | OpCode::Continue => {
                    let chunk = spec_unmask(h.mask, rest.take(d));
                    assert(chunk == rest.take(d));
                    if flen > avail {
                        let next = flen - avail;
                        assert(rest.take(d) =~= rest);
                        if flen > availu {
                            assert(restu.take(du) =~= restu);
                            assert(spec_unmask(h.mask, restu.take(du)) == restu.take(du));
                            assert(t.len() < next);
                            assert(spec_unmask(h.mask, t) == t);
                            assert(restu.take(du) =~= rest + t);
                        } else {
                            assert(du == flen);
                            assert(spec_unmask(h.mask, restu.take(du)) == restu.take(du));
                            assert(t.len() >= next);
                            assert(spec_unmask(h.mask, t.take(next)) == t.take(next));
                            assert(restu.take(flen) =~= rest + t.take(next));
                            assert(restu.skip(flen) =~= t.skip(next));
                            assert(produced_data(u) =~= (rest + t.take(next)) + produced_data(
                                t.skip(next),
                            ));
                            assert(rest + (t.take(next) + produced_data(t.skip(next))) =~= (rest
                                + t.take(next)) + produced_data(t.skip(next)));
                        }
                    } else {
                        assert(du == d);
                        assert(restu.skip(d) =~= rest.skip(d) + t);
                        lemma_produced_splice(rest.skip(d), t);
                        match spec_process(rest.skip(d)) {
                            ProcOut::Out { data: data2, st: st2, ping: ping2 } => {
                                assert(restu.take(d) =~= rest.take(d));
                                assert(spec_unmask(h.mask, restu.take(du)) == restu.take(du));
                                assert(produced_data(u) == restu.take(d) + produced_data(
                                    restu.skip(d),
                                ));
                                assert(produced_data(rest.skip(d) + t) == data2 + pending_data(
                                    st2,
                                    t,
                                ));
                                assert(restu.take(d) + (data2 + pending_data(st2, t)) =~= (chunk
                                    + data2) + pending_data(st2, t));
                            },
                            ProcOut::Fail(_) => {},
                        }
                    }
                },
                OpCode::Ping => {
                    if flen <= 125 {
                        if flen > avail {
                            let next = flen - avail;
                            if flen > availu {
                                assert(t.len() < next);
                            } else {
                                assert(du == flen);
                                assert(t.len() >= next);
                                assert(restu.skip(flen) =~= t.skip(next));
                                assert(Seq::<u8>::empty() + produced_data(t.skip(next))
                                    =~= produced_data(t.skip(next)));
                            }
                        } else {
                            assert(du == d);
                            assert(restu.skip(d) =~= rest.skip(d) + t);
                            lemma_produced_splice(rest.skip(d), t);
                            match spec_process(rest.skip(d)) {
                                ProcOut::Out { data: data2, st: st2, ping: ping2 } => {
                                    assert(produced_data(u) == produced_data(restu.skip(d)));
                                    assert(produced_data(rest.skip(d) + t) == data2 + pending_data(
                                        st2,
                                        t,
                                    ));
                                },
                                ProcOut::Fail(_) => {},
                            }
                        }
                    }
                },
            }
        },
    }
}


/// One read composes with the pending data: whatever one call to the read
/// machine hands the application, followed by what is still to come out of
/// its rest state, is what was to come out of the starting state — for
/// byte streams free of mask keys.
#[verifier::rlimit(100)]
#[verifier::spinoff_prover]
pub proof fn lemma_read_composes<IO: Transport, R: RoleHelper, G>(
    pre: Stream<IO, R, G>,
    post: Stream<IO, R, G>,
    obuf: Seq<u8>,
    nbuf: Seq<u8>,
    n: usize,
)
    requires
        read_some_post(pre, post, obuf, nbuf, Ok(n)),
        !(pre.read_state is ProcessBuf),
        n <= nbuf.len(),
        plain_from(rs_model(pre.read_state), pre.io.inbox()),
        head_ned(rs_model(pre.read_state)),
    ensures
        pending_data(rs_model(pre.read_state), pre.io.inbox()) == nbuf.take(n as int)
            + pending_data(rs_model(post.read_state), post.io.inbox()),
        plain_from(rs_model(post.read_state), post.io.inbox()),
        head_ned(rs_model(post.read_state)),
{
    let inbox = pre.io.inbox();
    let consumed = inbox.len() - post.io.inbox().len();
    let t = inbox.skip(consumed as int);
    match pre.read_state {
        ReadState::Eof => {
            assert(nbuf.take(0int) + Seq::<u8>::empty() =~= Seq::<u8>::empty());
        },
        ReadState::Close => {
            assert(nbuf.take(0int) + Seq::<u8>::empty() =~= Seq::<u8>::empty());
        },
        ReadState::ProcessBuf { .. } => {},
        ReadState::ReadHead(h) => {
            let hm = h.readable();
            if inbox.len() == 0 {
                assert(hm + inbox =~= hm);
                assert(produced_data(hm) =~= Seq::<u8>::empty());
                assert(nbuf.take(0int) + Seq::<u8>::empty() =~= Seq::<u8>::empty());
            } else {
                let s = hm + inbox.take(consumed as int);
                assert(s + t =~= hm + inbox);
                lemma_produced_splice(s, t);
                match spec_process(s) {
                    ProcOut::Out { data, st, ping } => {
                        assert(nbuf.take(n as int) == data);
                    },
                    ProcOut::Fail(_) => {},
                }
            }
        },
        ReadState::ReadData { next, mask } => {
            if inbox.len() == 0 {
                assert(spec_unmask(mask, inbox) =~= Seq::<u8>::empty());
                assert(produced_data(inbox.skip(0int)) =~= Seq::<u8>::empty()) by {
                    assert(inbox.skip(0int) =~= inbox);
                }
                assert(nbuf.take(0int) + Seq::<u8>::empty() =~= Seq::<u8>::empty());
            } else if consumed < next {
                assert(spec_unmask(mask, inbox.take(consumed as int)) == inbox.take(
                    consumed as int,
                ));
                assert(nbuf.take(n as int) == inbox.take(consumed as int));
                if inbox.len() < next {
                    assert(t.len() < next - consumed);
                    assert(spec_unmask(mask, inbox) == inbox);
                    assert(spec_unmask(mask, t) == t);
                    assert(inbox =~= inbox.take(consumed as int) + t);
                } else {
                    assert(t.len() >= next - consumed);
                    assert(spec_unmask(mask, inbox.take(next as int)) == inbox.take(next as int));
                    assert(spec_unmask(mask, t.take(next - consumed)) == t.take(next - consumed));
                    assert(t.skip(next - consumed) =~= inbox.skip(next as int));
                    assert(inbox.take(next as int) =~= inbox.take(consumed as int) + t.take(
                        next - consumed,
                    ));
                    assert(inbox.take(consumed as int) + (t.take(next - consumed) + produced_data(
                        inbox.skip(next as int),
                    )) =~= inbox.take(next as int) + produced_data(inbox.skip(next as int)));
                }
            } else {
                assert(inbox.len() >= next);
                assert(spec_unmask(mask, inbox.take(next as int)) == inbox.take(next as int));
                let s2 = inbox.subrange(next as int, consumed as int);
                assert(s2 + t =~= inbox.skip(next as int));
                lemma_produced_splice(s2, t);
                match spec_process(s2) {
                    ProcOut::Out { data: data2, st: st2, ping: ping2 } => {
                        assert(nbuf.subrange(0, next as int) == inbox.take(next as int));
                        assert(nbuf.subrange(next as int, next + data2.len()) == data2);
                        assert(nbuf.take(n as int) =~= inbox.take(next as int) + data2);
                        assert(inbox.take(next as int) + (data2 + pending_data(
                            st2,
                            t,
                        )) =~= (inbox.take(next as int) + data2) + pending_data(st2, t));
                    },
                    ProcOut::Fail(_) => {},
                }
            }
        },
        ReadState::ReadPing { next, mask } => {
            assert(n == 0);
            if inbox.len() == 0 {
                assert(produced_data(inbox.skip(0int)) =~= Seq::<u8>::empty()) by {
                    assert(inbox.skip(0int) =~= inbox);
                }
                assert(nbuf.take(0int) + Seq::<u8>::empty() =~= Seq::<u8>::empty());
            } else if consumed == next {
                match post.read_state {
                    ReadState::ReadHead(h2) => {
                        assert(h2.readable() =~= Seq::<u8>::empty());
                        assert(Seq::<u8>::empty() + t =~= t);
                        assert(t =~= inbox.skip(next as int));
                        assert(nbuf.take(0int) + produced_data(t) =~= produced_data(t));
                    },
                    _ => {},
                }
            } else {
                assert(consumed < next);
                if inbox.len() < next {
                    assert(t.len() < next - consumed);
                    assert(nbuf.take(0int) + Seq::<u8>::empty() =~= Seq::<u8>::empty());
                } else {
                    assert(t.len() >= next - consumed);
                    assert(t.skip(next - consumed) =~= inbox.skip(next as int));
                    assert(nbuf.take(0int) + produced_data(inbox.skip(next as int))
                        =~= produced_data(inbox.skip(next as int)));
                }
            }
        },
    }
}


/// End of stream is claimed only with the inbox drained: a read parks at
/// `Eof` only when the transport had nothing left.
pub proof fn lemma_read_some_eof<IO: Transport, R: RoleHelper, G>(
    pre: Stream<IO, R, G>,
    post: Stream<IO, R, G>,
    obuf: Seq<u8>,
    nbuf: Seq<u8>,
    n: usize,
)
    requires
        read_some_post(pre, post, obuf, nbuf, Ok(n)),
        post.io.inbox().len() <= pre.io.inbox().len(),
        !(pre.read_state is Eof),
        !(pre.read_state is ProcessBuf),
    ensures
        post.read_state is Eof ==> post.io.inbox().len() == 0,
{
    let inbox = pre.io.inbox();
    let consumed = inbox.len() - post.io.inbox().len();
    match pre.read_state {
        ReadState::ReadHead(h) => {
            if inbox.len() != 0 {
                lemma_process_bounds(h.readable() + inbox.take(consumed as int));
            }
        },
        ReadState::ReadData { next, mask } => {
            if inbox.len() != 0 && consumed >= next {
                lemma_process_bounds(inbox.subrange(next as int, consumed as int));
            }
        },
        _ => {},
    }
}


/// A run of frames none of which carries a non-zero mask key.
pub open spec fn frames_plain(fs: Seq<FrameSpec>) -> bool {
    forall|i: int| 0 <= i < fs.len() ==> !((#[trigger] fs[i].head).mask is Key)
}

/// The image of a key-free legal frame run followed by a key-free close is
/// a key-free byte stream.
proof fn lemma_frames_stream_plain(fs: Seq<FrameSpec>, close: crate::frame::FrameHead)
    requires
        frames_legal(fs),
        frames_plain(fs),
        crate::frame::head::spec_head_legal(close),
        close.opcode is Close,
        !(close.mask is Key),
    ensures
        stream_plain(frames_image(fs) + crate::frame::head::spec_encode_head(close)),
    decreases fs.len(),
{
    let cb = crate::frame::head::spec_encode_head(close);
    if fs.len() == 0 {
        assert(frames_image(fs) + cb =~= cb);
        crate::frame::head::lemma_head_roundtrip(close, Seq::empty());
        assert(cb =~= cb + Seq::<u8>::empty());
    } else {
        let h = fs[0].head;
        let p = fs[0].payload;
        let hb = crate::frame::head::spec_encode_head(h);
        let s = frames_image(fs) + cb;
        let tail_img = frames_image(fs.skip(1)) + cb;
        assert(s =~= hb + (p + tail_img));
        crate::frame::head::lemma_head_roundtrip(h, p + tail_img);
        let k = crate::frame::head::spec_head_size(h);
        let rest = s.skip(k);
        assert(rest =~= p + tail_img);
        let flen = spec_len_to_num(h.length) as int;
        assert(flen == p.len());
        assert(rest.skip(flen) =~= tail_img);
        assert(tail_img.len() >= 2) by {
            lemma_frames_image_not_short(fs.skip(1), close);
        }
        assert(frames_plain(fs.skip(1)));
        lemma_frames_stream_plain(fs.skip(1), close);
    }
}

/// The image of a run of frames followed by a close holds at least the two
/// bytes of the close's head.
proof fn lemma_frames_image_not_short(fs: Seq<FrameSpec>, close: crate::frame::FrameHead)
    ensures
        (frames_image(fs) + crate::frame::head::spec_encode_head(close)).len() >= 2,
    decreases fs.len(),
{
}

/// A fresh machine fed the whole image of a key-free legal frame run and a
/// close frame has exactly the run's payloads pending: with this, what a
/// guarded drain of such a wire appends is the concatenated payloads.
pub proof fn lemma_pending_frame_stream(fs: Seq<FrameSpec>, close: crate::frame::FrameHead)
    requires
        frames_legal(fs),
        frames_plain(fs),
        crate::frame::head::spec_head_legal(close),
        close.opcode is Close,
        !(close.mask is Key),
    ensures
        plain_from(
            ReadModel::Head(Seq::empty()),
            frames_image(fs) + crate::frame::head::spec_encode_head(close),
        ),
        head_ned(ReadModel::Head(Seq::empty())),
        pending_data(
            ReadModel::Head(Seq::empty()),
            frames_image(fs) + crate::frame::head::spec_encode_head(close),
        ) == frames_data(fs),
{
    let img = frames_image(fs) + crate::frame::head::spec_encode_head(close);
    lemma_frames_stream_plain(fs, close);
    lemma_process_frame_stream(fs, close);
    lemma_produced_matches_process(img);
    assert(Seq::<u8>::empty() + img =~= img);
}

} // verus!
