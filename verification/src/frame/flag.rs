use vstd::prelude::*;
use crate::error::FrameError;

verus! {

/// Fin flag of a frame head.
#[derive(Debug, Clone, Copy, PartialEq, Eq, Structural)]
pub enum Fin {
    /// Final fragment: leading bit of the first head byte set.
    Y,
    /// Not final: leading bit clear.
    N,
}

/// Frame opcode.
#[derive(Debug, Clone, Copy, PartialEq, Eq, Structural)]
pub enum OpCode {
    /// Continuation frame, 0x0.
    Continue,
    /// Text frame, 0x1.
    Text,
    /// Binary frame, 0x2.
    Binary,
    /// Connection close, 0x8.
    Close,
    /// Ping, 0x9.
    Ping,
    /// Pong, 0xA.
    Pong,
}

/// The bit the fin flag contributes to the first head byte.
pub open spec fn spec_fin_flag(f: Fin) -> u8 {
    match f {
        Fin::Y => 0x80u8,
        Fin::N => 0x00u8,
    }
}

/// The fin flag read from the high nibble of the first head byte, if legal.
pub open spec fn spec_fin_from_flag(b: u8) -> Result<Fin, FrameError> {
    if b & 0xf0 == 0x80 {
        Ok(Fin::Y)
    } else if b & 0xf0 == 0x00 {
        Ok(Fin::N)
    } else {
        Err(FrameError::IllegalFin)
    }
}

/// The opcode's wire value.
pub open spec fn spec_opcode_value(op: OpCode) -> u8 {
    match op {
        OpCode::Continue => 0x00u8,
        OpCode::Text => 0x01u8,
        OpCode::Binary => 0x02u8,
        OpCode::Close => 0x08u8,
        OpCode::Ping => 0x09u8,
        OpCode::Pong => 0x0au8,
    }
}

/// The opcode read from the low nibble of the first head byte, if legal.
pub open spec fn spec_opcode_from_flag(b: u8) -> Result<OpCode, FrameError> {
    if b & 0x0f == 0x00 {
        Ok(OpCode::Continue)
    } else if b & 0x0f == 0x01 {
        Ok(OpCode::Text)
    } else if b & 0x0f == 0x02 {
        Ok(OpCode::Binary)
    } else if b & 0x0f == 0x08 {
        Ok(OpCode::Close)
    } else if b & 0x0f == 0x09 {
        Ok(OpCode::Ping)
    } else if b & 0x0f == 0x0a {
        Ok(OpCode::Pong)
    } else {
        Err(FrameError::IllegalOpCode)
    }
}

impl Fin {
    /// The bit this flag contributes to the first head byte.
    pub fn to_flag(&self) -> (r: u8)
        ensures
            r == spec_fin_flag(*self),
    {
        match self {
            Fin::Y => 0x80,
            Fin::N => 0x00,
        }
    }

    /// Parse from the first head byte.
    pub fn from_flag(b: u8) -> (r: Result<Self, FrameError>)
        ensures
            r == spec_fin_from_flag(b),
    {
        let high = b & 0xf0;
        if high == 0x80 {
            Ok(Fin::Y)
        } else if high == 0x00 {
            Ok(Fin::N)
        } else {
            Err(FrameError::IllegalFin)
        }
    }
}

impl OpCode {
    /// The opcode's wire value.
    pub fn to_flag(&self) -> (r: u8)
        ensures
            r == spec_opcode_value(*self),
    {
        match self {
            OpCode::Continue => 0x00,
            OpCode::Text => 0x01,
            OpCode::Binary => 0x02,
            OpCode::Close => 0x08,
            OpCode::Ping => 0x09,
            OpCode::Pong => 0x0a,
        }
    }

    /// Parse from the first head byte.
    pub fn from_flag(b: u8) -> (r: Result<Self, FrameError>)
        ensures
            r == spec_opcode_from_flag(b),
    {
        let low = b & 0x0f;
        if low == 0x00 {
            Ok(OpCode::Continue)
        } else if low == 0x01 {
            Ok(OpCode::Text)
        } else if low == 0x02 {
            Ok(OpCode::Binary)
        } else if low == 0x08 {
            Ok(OpCode::Close)
        } else if low == 0x09 {
            Ok(OpCode::Ping)
        } else if low == 0x0a {
            Ok(OpCode::Pong)
        } else {
            Err(FrameError::IllegalOpCode)
        }
    }
}

} // verus!
