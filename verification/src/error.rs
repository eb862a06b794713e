use vstd::prelude::*;

verus! {

/// Declares httparse's error type so that a `HandshakeError` can carry the
/// parser's diagnostic through; the value is opaque to this library.
#[verifier::external_type_specification]
#[verifier::external_body]
pub struct ExHttparseError(httparse::Error);

/// Errors of the frame-head codec and of the read path.
#[derive(Debug, Clone, Copy, PartialEq, Eq, Structural)]
pub enum FrameError {
    /// High nibble of the first head byte is neither 0x8 nor 0x0.
    IllegalFin,
    /// Mask bit malformed (unreachable on decode, kept for completeness).
    IllegalMask,
    /// Low nibble of the first head byte is not an assigned opcode.
    IllegalOpCode,
    /// A ping frame announced more than 125 payload bytes.
    IllegalData,
    /// The buffer does not hold a complete frame head yet.
    NotEnoughData,
    /// The buffer is too short for the encoded frame head.
    NotEnoughCapacity,
    /// Text or Pong frame: outside this engine's binary proxy contract.
    UnsupportedOpcode,
}

/// Errors of the handshake codec.
#[derive(Debug, Clone, Copy, PartialEq, Eq)]
pub enum HandshakeError {
    /// Version is not HTTP/1.1.
    HttpVersion,
    /// Method is not GET.
    HttpMethod,
    /// Status code is not 101.
    HttpStatusCode,
    /// Missing host header.
    HttpHost,
    /// Missing or illegal upgrade header.
    Upgrade,
    /// Missing or illegal connection header.
    Connection,
    /// Missing sec-websocket-key header.
    SecWebSocketKey,
    /// Missing or mismatched sec-websocket-accept header.
    SecWebSocketAccept,
    /// Missing or illegal sec-websocket-version header.
    SecWebSocketVersion,
    /// The buffer does not hold a complete request or response yet.
    NotEnoughData,
    /// The buffer is too short for the encoded request or response.
    NotEnoughCapacity,
    /// The underlying HTTP parser rejected the bytes.
    HttpParse(httparse::Error),
    /// Host or path mismatch while accepting a connection.
    HostMismatch,
    /// Path mismatch while accepting a connection.
    PathMismatch,
}

/// Errors of the stream's control surface.
#[derive(Debug, Clone, Copy, PartialEq, Eq, Structural)]
pub enum CtrlError {
    /// The write mask may only change between frames.
    SetMaskInWrite,
}

/// Any error of this library.
#[derive(Debug, Clone, Copy, PartialEq, Eq)]
pub enum WsError {
    Ctrl(CtrlError),
    Frame(FrameError),
    Handshake(HandshakeError),
}

impl From<FrameError> for WsError {
    fn from(e: FrameError) -> (r: Self) {
        WsError::Frame(e)
    }
}

impl vstd::std_specs::convert::FromSpecImpl<FrameError> for WsError {
    open spec fn obeys_from_spec() -> bool {
        true
    }

    open spec fn from_spec(e: FrameError) -> Self {
        WsError::Frame(e)
    }
}

impl From<HandshakeError> for WsError {
    fn from(e: HandshakeError) -> (r: Self) {
        WsError::Handshake(e)
    }
}

impl vstd::std_specs::convert::FromSpecImpl<HandshakeError> for WsError {
    open spec fn obeys_from_spec() -> bool {
        true
    }

    open spec fn from_spec(e: HandshakeError) -> Self {
        WsError::Handshake(e)
    }
}

impl From<CtrlError> for WsError {
    fn from(e: CtrlError) -> (r: Self) {
        WsError::Ctrl(e)
    }
}

impl vstd::std_specs::convert::FromSpecImpl<CtrlError> for WsError {
    open spec fn obeys_from_spec() -> bool {
        true
    }

    open spec fn from_spec(e: CtrlError) -> Self {
        WsError::Ctrl(e)
    }
}

} // verus!
