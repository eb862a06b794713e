use vstd::prelude::*;
use crate::error::FrameError;
use crate::frame::Mask;
use crate::store::Store;

verus! {

/// Holds an incomplete frame head across transport calls; 14 bytes is the
/// largest head.
pub type HeadStore = Store<14>;

/// Holds the most recent ping payload; 125 bytes is the control-frame limit.
pub type PingStore = Store<125>;

/// The most recent ping and whether it has been read completely.
#[derive(Debug, Clone, Copy)]
pub struct HeartBeat {
    pub ping_store: PingStore,
    pub is_complete: bool,
}

impl HeartBeat {
    pub fn new() -> (r: Self)
        ensures
            r.ping_store.wf(),
            r.ping_store.rd == 0 && r.ping_store.wr == 0,
            !r.is_complete,
    {
        HeartBeat { ping_store: PingStore::new(), is_complete: false }
    }
}

/// Read-side state of a stream.
#[allow(inconsistent_fields)]
#[derive(Debug, Clone, Copy)]
pub enum ReadState {
    /// Between frames; the store holds any bytes of the next head read so
    /// far.
    ReadHead(HeadStore),
    /// Mid-payload of a data or continuation frame; `next` bytes are still
    /// outstanding.
    ReadData { next: u64, mask: Mask },
    /// Mid-payload of a ping frame; `next` bytes are still outstanding.
    ReadPing { next: u8, mask: Mask },
    /// A span of the caller's buffer still holds undecoded frame material.
    ProcessBuf { beg: usize, end: usize, processed: usize },
    /// The transport reported end of stream; reads yield 0 from now on.
    Eof,
    /// A close frame was observed; reads yield 0 from now on.
    Close,
}

impl ReadState {
    /// The initial state: waiting for a head, nothing stored.
    pub fn new() -> (r: Self)
        ensures
            r matches ReadState::ReadHead(h) && h.wf() && h.rd == 0 && h.wr == 0
                && h.readable().len() == 0,
    {
        ReadState::ReadHead(HeadStore::new())
    }
}

/// Write-side state of a stream.
#[derive(Debug, Clone, Copy)]
pub enum WriteState {
    /// A new frame may begin; the store holds any unflushed head bytes.
    WriteHead(HeadStore),
    /// Inside an announced frame; `n` payload bytes are still to flush.
    WriteData(u64),
    /// The transport accepted zero bytes; writes yield 0 from now on.
    WriteZero,
}

impl WriteState {
    /// The initial state: a new frame may begin, nothing to flush.
    pub fn new() -> (r: Self)
        ensures
            r matches WriteState::WriteHead(h) && h.wf() && h.rd == 0 && h.wr == 0
                && h.readable().len() == 0,
    {
        WriteState::WriteHead(HeadStore::new())
    }
}

/// What the read machine rests in, as the contracts see it: stored bytes
/// instead of cursor positions.
pub ghost enum ReadModel {
    Head(Seq<u8>),
    Data { next: u64, mask: Mask },
    Ping { next: u8, mask: Mask },
    Close,
    Eof,
}

/// What a ping frame leaves behind: the payload bytes received so far and
/// whether the frame was read to its end.
pub ghost struct PingEffect {
    pub data: Seq<u8>,
    pub complete: bool,
}

/// What processing a span of buffered bytes yields: application data, the
/// state to rest in, and the effect of the last ping seen, or the first
/// error.
pub ghost enum ProcOut {
    Out { data: Seq<u8>, st: ReadModel, ping: Option<PingEffect> },
    Fail(FrameError),
}

/// The model a read state rests in. `ProcessBuf` never rests between calls;
/// it maps to an empty head for totality.
pub open spec fn rs_model(rs: ReadState) -> ReadModel {
    match rs {
        ReadState::ReadHead(h) => ReadModel::Head(h.readable()),
        ReadState::ReadData { next, mask } => ReadModel::Data { next, mask },
        ReadState::ReadPing { next, mask } => ReadModel::Ping { next, mask },
        ReadState::ProcessBuf { .. } => ReadModel::Head(Seq::empty()),
        ReadState::Eof => ReadModel::Eof,
        ReadState::Close => ReadModel::Close,
    }
}

} // verus!
