//! Frame head and payload masking, RFC 6455 section 5.

pub mod flag;
pub mod head;
pub mod length;
pub mod mask;

pub use flag::{Fin, OpCode};
pub use head::FrameHead;
pub use length::PayloadLen;
pub use mask::Mask;
