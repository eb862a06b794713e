//! A lightweight websocket codec and stream engine for proxy-style relays,
//! with its behaviour verified.
//!
//! The engine buffers no payload: reads and writes work in caller-owned
//! buffers, frame heads are assembled and flushed through small stack
//! buffers, and incoming payload is unmasked and compacted in place. A
//! [`stream::Stream`] wraps any [`transport::Transport`] and behaves as a
//! plain byte stream; an [`endpoint::Endpoint`] performs the handshake that
//! produces one.

pub mod endpoint;
pub mod error;
pub mod frame;
pub mod handshake;
pub mod role;
pub mod store;
pub mod stream;
pub mod transport;
