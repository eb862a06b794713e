use vstd::prelude::*;

verus! {

/// Payload length of a frame, tagged by its on-wire encoding.
///
/// The wire carries 7 bits, 7+16 bits, or 7+64 bits.
#[derive(Debug, Clone, Copy, PartialEq, Eq, Structural)]
pub enum PayloadLen {
    /// 0 to 125, carried in the flag byte itself.
    Standard(u8),
    /// 126 to 65535, carried in two extended bytes.
    Extended1(u16),
    /// 65536 and above, carried in eight extended bytes.
    Extended2(u64),
}

/// The minimum encoding of a number: `Standard` below 126, `Extended1`
/// below 65536, `Extended2` above.
pub open spec fn spec_len_from_num(n: u64) -> PayloadLen {
    if n < 126 {
        PayloadLen::Standard(n as u8)
    } else if n < 65536 {
        PayloadLen::Extended1(n as u16)
    } else {
        PayloadLen::Extended2(n)
    }
}

/// The number a tagged length denotes.
pub open spec fn spec_len_to_num(l: PayloadLen) -> u64 {
    match l {
        PayloadLen::Standard(v) => v as u64,
        PayloadLen::Extended1(v) => v as u64,
        PayloadLen::Extended2(v) => v,
    }
}

/// The length flag in the second head byte: the length itself up to 125,
/// else 126 or 127 announcing the extended bytes.
pub open spec fn spec_len_to_flag(l: PayloadLen) -> u8 {
    match l {
        PayloadLen::Standard(v) => v,
        PayloadLen::Extended1(_) => 126u8,
        PayloadLen::Extended2(_) => 127u8,
    }
}

/// The kind of length announced by the low seven bits of the second head
/// byte; extended kinds carry 0 until the extended bytes are read.
pub open spec fn spec_len_from_flag(b: u8) -> PayloadLen {
    if b & 0x7f == 126 {
        PayloadLen::Extended1(0)
    } else if b & 0x7f == 127 {
        PayloadLen::Extended2(0)
    } else {
        PayloadLen::Standard((b & 0x7f) as u8)
    }
}

impl PayloadLen {
    /// Choose the minimum encoding for `n`.
    pub fn from_num(n: u64) -> (r: Self)
        ensures
            r == spec_len_from_num(n),
    {
        if n < 126 {
            PayloadLen::Standard(n as u8)
        } else if n < 65536 {
            PayloadLen::Extended1(n as u16)
        } else {
            PayloadLen::Extended2(n)
        }
    }

    /// The number this length denotes.
    pub fn to_num(&self) -> (r: u64)
        ensures
            r == spec_len_to_num(*self),
    {
        match self {
            PayloadLen::Standard(v) => *v as u64,
            PayloadLen::Extended1(v) => *v as u64,
            PayloadLen::Extended2(v) => *v,
        }
    }

    /// Read the kind of length announced by the flag byte. For the extended
    /// kinds the caller reads the next 2 or 8 bytes to learn the number.
    pub fn from_flag(b: u8) -> (r: Self)
        ensures
            r == spec_len_from_flag(b),
    {
        let low = b & 0x7f;
        if low == 126 {
            PayloadLen::Extended1(0)
        } else if low == 127 {
            PayloadLen::Extended2(0)
        } else {
            PayloadLen::Standard(low)
        }
    }

    /// The flag byte: the length itself if at most 125, else 126 or 127.
    pub fn to_flag(&self) -> (r: u8)
        ensures
            r == spec_len_to_flag(*self),
    {
        match self {
            PayloadLen::Standard(v) => *v,
            PayloadLen::Extended1(_) => 126,
            PayloadLen::Extended2(_) => 127,
        }
    }

    /// Read two big-endian extended bytes.
    pub fn from_byte2(buf: [u8; 2]) -> (r: Self)
        ensures
            r == PayloadLen::Extended1(((buf@[0] as u16) << 8u16 | (buf@[1] as u16)) as u16),
    {
        PayloadLen::Extended1((buf[0] as u16) << 8 | (buf[1] as u16))
    }

    /// Read eight big-endian extended bytes.
    pub fn from_byte8(buf: [u8; 8]) -> (r: Self)
        ensures
            r == PayloadLen::Extended2(spec_u64_from_be(buf@)),
    {
        let v = (buf[0] as u64) << 56 | (buf[1] as u64) << 48 | (buf[2] as u64) << 40
            | (buf[3] as u64) << 32 | (buf[4] as u64) << 24 | (buf[5] as u64) << 16
            | (buf[6] as u64) << 8 | (buf[7] as u64);
        assert(v == spec_u64_from_be(buf@)) by {
            assert(buf@.len() == 8);
        }
        PayloadLen::Extended2(v)
    }

    /// The number, which must be of the `Standard` kind.
    pub fn to_u8(&self) -> (r: u8)
        requires
            self is Standard,
        ensures
            r == self->Standard_0,
    {
        match self {
            PayloadLen::Standard(v) => *v,
            _ => 0,
        }
    }

    /// The number, which must be of the `Extended1` kind.
    pub fn to_u16(&self) -> (r: u16)
        requires
            self is Extended1,
        ensures
            r == self->Extended1_0,
    {
        match self {
            PayloadLen::Extended1(v) => *v,
            _ => 0,
        }
    }

    /// The number, which must be of the `Extended2` kind.
    pub fn to_u64(&self) -> (r: u64)
        requires
            self is Extended2,
        ensures
            r == self->Extended2_0,
    {
        match self {
            PayloadLen::Extended2(v) => *v,
            _ => 0,
        }
    }
}

/// Two big-endian bytes of a 16-bit number.
pub open spec fn spec_u16_to_be(v: u16) -> Seq<u8> {
    seq![(v >> 8u16) as u8, v as u8]
}

/// Eight big-endian bytes of a 64-bit number.
pub open spec fn spec_u64_to_be(v: u64) -> Seq<u8> {
    seq![
        (v >> 56u64) as u8,
        (v >> 48u64) as u8,
        (v >> 40u64) as u8,
        (v >> 32u64) as u8,
        (v >> 24u64) as u8,
        (v >> 16u64) as u8,
        (v >> 8u64) as u8,
        v as u8,
    ]
}

/// The 16-bit number two big-endian bytes denote.
pub open spec fn spec_u16_from_be(s: Seq<u8>) -> u16
    recommends
        s.len() == 2,
{
    ((s[0] as u16) << 8u16 | (s[1] as u16)) as u16
}

/// The 64-bit number eight big-endian bytes denote.
pub open spec fn spec_u64_from_be(s: Seq<u8>) -> u64
    recommends
        s.len() == 8,
{
    ((s[0] as u64) << 56u64 | (s[1] as u64) << 48u64 | (s[2] as u64) << 40u64
        | (s[3] as u64) << 32u64 | (s[4] as u64) << 24u64 | (s[5] as u64) << 16u64
        | (s[6] as u64) << 8u64 | (s[7] as u64)) as u64
}

/// Big-endian round trip for 16-bit numbers.
pub proof fn lemma_u16_be_roundtrip(v: u16)
    ensures
        spec_u16_from_be(spec_u16_to_be(v)) == v,
{
    let b0 = (v >> 8u16) as u8;
    let b1 = v as u8;
    assert((b0 as u16) << 8u16 | (b1 as u16) == v) by (bit_vector)
        requires
            b0 == (v >> 8u16) as u8 && b1 == v as u8,
    ;
}

/// Big-endian round trip for 64-bit numbers.
pub proof fn lemma_u64_be_roundtrip(v: u64)
    ensures
        spec_u64_from_be(spec_u64_to_be(v)) == v,
{
    let b0 = (v >> 56u64) as u8;
    let b1 = (v >> 48u64) as u8;
    let b2 = (v >> 40u64) as u8;
    let b3 = (v >> 32u64) as u8;
    let b4 = (v >> 24u64) as u8;
    let b5 = (v >> 16u64) as u8;
    let b6 = (v >> 8u64) as u8;
    let b7 = v as u8;
    assert((b0 as u64) << 56u64 | (b1 as u64) << 48u64 | (b2 as u64) << 40u64
        | (b3 as u64) << 32u64 | (b4 as u64) << 24u64 | (b5 as u64) << 16u64
        | (b6 as u64) << 8u64 | (b7 as u64) == v) by (bit_vector)
        requires
            b0 == (v >> 56u64) as u8 && b1 == (v >> 48u64) as u8 && b2 == (v >> 40u64) as u8
                && b3 == (v >> 32u64) as u8 && b4 == (v >> 24u64) as u8 && b5 == (v
                >> 16u64) as u8 && b6 == (v >> 8u64) as u8 && b7 == v as u8,
    ;
}

/// Executable big-endian split of a 16-bit number.
pub fn u16_to_be(v: u16) -> (r: [u8; 2])
    ensures
        r@ == spec_u16_to_be(v),
{
    let r = [(v >> 8) as u8, v as u8];
    assert(r@ =~= spec_u16_to_be(v));
    r
}

/// Executable big-endian split of a 64-bit number.
pub fn u64_to_be(v: u64) -> (r: [u8; 8])
    ensures
        r@ == spec_u64_to_be(v),
{
    let r = [
        (v >> 56) as u8,
        (v >> 48) as u8,
        (v >> 40) as u8,
        (v >> 32) as u8,
        (v >> 24) as u8,
        (v >> 16) as u8,
        (v >> 8) as u8,
        v as u8,
    ];
    assert(r@ =~= spec_u64_to_be(v));
    r
}

} // verus!
