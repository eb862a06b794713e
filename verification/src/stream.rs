//! The websocket stream: a thin wrapper of the underlying transport with
//! small stack buffers for its read and write state machines.
//!
//! A fresh stream is in `Direct` mode: one call makes at most one transport
//! operation and may return 0 to mean "frame head still in flight, call
//! again". `guard` converts it to `Guarded` mode, which loops internally and
//! returns 0 only in a terminal state.

pub mod detail;
pub mod read;
pub mod state;
pub mod write;

use vstd::prelude::*;
use crate::error::CtrlError;
use crate::frame::Mask;
use crate::role::RoleHelper;
use crate::transport::Transport;
use state::{HeartBeat, ReadState, WriteState};

verus! {

/// Direct mode: at most one transport operation per call.
pub struct Direct {}

/// Guarded mode: calls loop until data moved or a terminal state.
pub struct Guarded {}

/// A websocket stream over a transport. `Role` decides the mask stamped on
/// outgoing frame heads; `Guard` picks direct or guarded mode.
pub struct Stream<IO, Role, Guard> {
    pub io: IO,
    pub role: Role,
    pub read_state: ReadState,
    pub write_state: WriteState,
    pub heartbeat: HeartBeat,
    pub guard: core::marker::PhantomData<Guard>,
}

impl<IO, Role, Guard> Stream<IO, Role, Guard> {
    /// The state machines' well-formedness: store cursors in range, byte
    /// counts of partial frames positive, and a partial head always short
    /// enough that a 14-byte buffer finishes it.
    pub open spec fn wf(&self) -> bool {
        &&& self.heartbeat.ping_store.wf()
        &&& self.heartbeat.ping_store.rd == 0
        &&& match self.read_state {
            ReadState::ReadHead(h) => h.wf() && h.readable().len() <= 13,
            ReadState::ReadData { next, mask } => next >= 1,
            ReadState::ReadPing { next, mask } => 1 <= next
                && self.heartbeat.ping_store.wr + next <= 125,
            _ => true,
        }
        &&& match self.write_state {
            WriteState::WriteHead(h) => h.wf(),
            WriteState::WriteData(n) => n >= 1,
            WriteState::WriteZero => true,
        }
    }

    /// True if a ping frame has been received (and carried payload).
    pub fn is_pinged(&self) -> (r: bool)
        ensures
            r == (self.heartbeat.ping_store.wr != 0),
    {
        !self.heartbeat.ping_store.is_empty()
    }

    /// True if the most recent ping frame was read to its end.
    pub fn is_ping_completed(&self) -> (r: bool)
        ensures
            r == self.heartbeat.is_complete,
    {
        self.heartbeat.is_complete
    }

    /// The most recent ping payload.
    pub fn ping_data(&self) -> (r: Vec<u8>)
        requires
            self.wf(),
        ensures
            r@ == self.heartbeat.ping_store.readable(),
    {
        self.heartbeat.ping_store.read()
    }

    /// True if the transport reported end of stream.
    pub fn is_read_eof(&self) -> (r: bool)
        ensures
            r == (self.read_state is Eof),
    {
        match self.read_state {
            ReadState::Eof => true,
            _ => false,
        }
    }

    /// True if a close frame was received.
    pub fn is_read_close(&self) -> (r: bool)
        ensures
            r == (self.read_state is Close),
    {
        match self.read_state {
            ReadState::Close => true,
            _ => false,
        }
    }

    /// True if a close frame was received or end of stream reached.
    pub fn is_read_end(&self) -> (r: bool)
        ensures
            r == (self.read_state is Eof || self.read_state is Close),
    {
        self.is_read_eof() || self.is_read_close()
    }

    /// True if the write side hit a zero-byte transport write.
    pub fn is_write_zero(&self) -> (r: bool)
        ensures
            r == (self.write_state is WriteZero),
    {
        match self.write_state {
            WriteState::WriteZero => true,
            _ => false,
        }
    }

    /// True if the read side is between frames (a head may be partially
    /// read).
    pub fn is_read_partial_head(&self) -> (r: bool)
        ensures
            r == (self.read_state is ReadHead),
    {
        match self.read_state {
            ReadState::ReadHead(_) => true,
            _ => false,
        }
    }

    /// True if the write side is between frames (a head may be partially
    /// written).
    pub fn is_write_partial_head(&self) -> (r: bool)
        ensures
            r == (self.write_state is WriteHead),
    {
        match self.write_state {
            WriteState::WriteHead(_) => true,
            _ => false,
        }
    }
}

impl<IO, Role, Guard> Stream<IO, Role, Guard> where Role: RoleHelper {
    /// The mask for upcoming writes.
    pub fn write_mask(&self) -> (m: Mask)
        ensures
            m == self.role.spec_mask(),
    {
        self.role.write_mask_key()
    }

    /// Set the mask for upcoming writes. Fails, changing nothing, unless
    /// this is a fresh write: a key change mid-frame would corrupt the
    /// committed head.
    pub fn set_write_mask(&mut self, mask: [u8; 4]) -> (r: Result<(), CtrlError>)
        ensures
            final(self).io == old(self).io,
            final(self).read_state == old(self).read_state,
            final(self).write_state == old(self).write_state,
            final(self).heartbeat == old(self).heartbeat,
            match r {
                Ok(()) => {
                    &&& old(self).write_state matches WriteState::WriteHead(h) && h.wr == 0
                    &&& final(self).role == old(self).role.spec_set_mask(mask)
                },
                Err(e) => {
                    &&& e == CtrlError::SetMaskInWrite
                    &&& !(old(self).write_state matches WriteState::WriteHead(h) && h.wr == 0)
                    &&& final(self).role == old(self).role
                },
            },
    {
        match &self.write_state {
            WriteState::WriteHead(head) => {
                if head.is_empty() {
                    self.role.set_write_mask_key(mask);
                    Ok(())
                } else {
                    Err(CtrlError::SetMaskInWrite)
                }
            },
            _ => Err(CtrlError::SetMaskInWrite),
        }
    }
}

impl<IO, Role> Stream<IO, Role, Direct> {
    /// Wrap a transport in a stream directly, without a handshake.
    pub fn new(io: IO, role: Role) -> (r: Self)
        ensures
            r.wf(),
            r.io == io,
            r.role == role,
            r.read_state matches ReadState::ReadHead(h) && h.readable().len() == 0,
            r.write_state matches WriteState::WriteHead(h) && h.readable().len() == 0,
            r.heartbeat.ping_store.wr == 0,
            !r.heartbeat.is_complete,
    {
        Stream {
            io,
            role,
            read_state: ReadState::new(),
            write_state: WriteState::new(),
            heartbeat: HeartBeat::new(),
            guard: core::marker::PhantomData,
        }
    }

    /// Convert to a guarded stream; a move, allowed once.
    pub fn guard(self) -> (r: Stream<IO, Role, Guarded>)
        ensures
            r.io == self.io,
            r.role == self.role,
            r.read_state == self.read_state,
            r.write_state == self.write_state,
            r.heartbeat == self.heartbeat,
    {
        Stream {
            io: self.io,
            role: self.role,
            read_state: self.read_state,
            write_state: self.write_state,
            heartbeat: self.heartbeat,
            guard: core::marker::PhantomData,
        }
    }
}

impl<IO: Clone, Role: Clone> Stream<IO, Role, Direct> {
    /// A new independently owned stream over a clone of the transport
    /// handle. States are not shared: the clone starts fresh.
    pub fn try_clone(&self) -> (r: Self)
        ensures
            r.wf(),
            r.read_state matches ReadState::ReadHead(h) && h.readable().len() == 0,
            r.write_state matches WriteState::WriteHead(h) && h.readable().len() == 0,
    {
        Stream {
            io: self.io.clone(),
            role: self.role.clone(),
            read_state: ReadState::new(),
            write_state: WriteState::new(),
            heartbeat: HeartBeat::new(),
            guard: core::marker::PhantomData,
        }
    }
}

impl<IO: Transport, Role, Guard> Stream<IO, Role, Guard> {
    /// The stream buffers no payload; flushing forwards to the transport.
    pub fn flush(&mut self)
        ensures
            final(self).io.wire() == old(self).io.wire(),
            final(self).io.inbox() == old(self).io.inbox(),
            final(self).role == old(self).role,
            final(self).read_state == old(self).read_state,
            final(self).write_state == old(self).write_state,
            final(self).heartbeat == old(self).heartbeat,
    {
        self.io.flush()
    }
}

} // verus!
