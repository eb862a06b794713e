use vstd::prelude::*;
use crate::error::FrameError;
use crate::store::Writer;
use super::flag::{Fin, OpCode, spec_fin_flag, spec_fin_from_flag, spec_opcode_value,
    spec_opcode_from_flag};
use super::length::{PayloadLen, spec_len_from_num, spec_len_to_flag, spec_len_from_flag, spec_u16_to_be,
    spec_u64_to_be, spec_u16_from_be, spec_u64_from_be, u16_to_be, u64_to_be,
    lemma_u16_be_roundtrip, lemma_u64_be_roundtrip};
use super::mask::{Mask, spec_mask_flag};

verus! {

/// A frame head: the 2 to 14 bytes in front of every frame's payload.
#[derive(Debug, Clone, Copy, PartialEq, Eq)]
pub struct FrameHead {
    pub fin: Fin,
    pub opcode: OpCode,
    pub mask: Mask,
    pub length: PayloadLen,
}

/// A head the encoder can lay out: a `Standard` length fits its seven bits.
pub open spec fn spec_head_wf(h: FrameHead) -> bool {
    h.length is Standard ==> h.length->Standard_0 <= 125
}

/// A head that survives the wire unchanged: well formed, and a `Key` mask is
/// not all zero (an all-zero key decodes as `Skip`).
pub open spec fn spec_head_legal(h: FrameHead) -> bool {
    &&& spec_head_wf(h)
    &&& (h.mask is Key ==> h.mask->Key_0@ != seq![0u8, 0u8, 0u8, 0u8])
}

/// The extended length bytes of a head: none, two or eight, big-endian.
pub open spec fn spec_ext_len_bytes(l: PayloadLen) -> Seq<u8> {
    match l {
        PayloadLen::Standard(_) => Seq::empty(),
        PayloadLen::Extended1(v) => spec_u16_to_be(v),
        PayloadLen::Extended2(v) => spec_u64_to_be(v),
    }
}

/// The mask key bytes of a head: none, the key, or four zero bytes.
pub open spec fn spec_mask_bytes(m: Mask) -> Seq<u8> {
    match m {
        Mask::Key(k) => k@,
        Mask::Skip => seq![0u8, 0u8, 0u8, 0u8],
        Mask::Plain => Seq::empty(),
    }
}

/// The on-wire bytes of a head.
pub open spec fn spec_encode_head(h: FrameHead) -> Seq<u8> {
    seq![
        spec_fin_flag(h.fin) | spec_opcode_value(h.opcode),
        spec_mask_flag(h.mask) | spec_len_to_flag(h.length),
    ] + spec_ext_len_bytes(h.length) + spec_mask_bytes(h.mask)
}

/// The encoded size of a head: 2 + {0,2,8} + {0,4}, at most 14.
pub open spec fn spec_head_size(h: FrameHead) -> int {
    spec_encode_head(h).len() as int
}

/// The four-byte array a four-byte sequence denotes.
pub open spec fn spec_key_of(s: Seq<u8>) -> [u8; 4]
    recommends
        s.len() == 4,
{
    [s[0], s[1], s[2], s[3]]
}

/// What decoding a byte sequence yields: a head and the count of bytes it
/// took, or the first error in decoding order (fin, opcode, then lengths).
pub open spec fn spec_decode_head(s: Seq<u8>) -> Result<(FrameHead, int), FrameError> {
    if s.len() < 2 {
        Err(FrameError::NotEnoughData)
    } else {
        match spec_fin_from_flag(s[0]) {
            Err(e) => Err(e),
            Ok(fin) => match spec_opcode_from_flag(s[0]) {
                Err(e) => Err(e),
                Ok(opcode) => {
                    let masked = s[1] & 0x80 == 0x80;
                    match spec_len_from_flag(s[1]) {
                        PayloadLen::Standard(v) => spec_decode_tail(
                            s,
                            fin,
                            opcode,
                            masked,
                            PayloadLen::Standard(v),
                            2,
                        ),
                        PayloadLen::Extended1(_) => if s.len() < 4 {
                            Err(FrameError::NotEnoughData)
                        } else {
                            spec_decode_tail(
                                s,
                                fin,
                                opcode,
                                masked,
                                PayloadLen::Extended1(spec_u16_from_be(s.subrange(2, 4))),
                                4,
                            )
                        },
                        PayloadLen::Extended2(_) => if s.len() < 10 {
                            Err(FrameError::NotEnoughData)
                        } else {
                            spec_decode_tail(
                                s,
                                fin,
                                opcode,
                                masked,
                                PayloadLen::Extended2(spec_u64_from_be(s.subrange(2, 10))),
                                10,
                            )
                        },
                    }
                },
            },
        }
    }
}

/// The mask-key step of decoding, after `k` bytes of flags and length.
pub open spec fn spec_decode_tail(
    s: Seq<u8>,
    fin: Fin,
    opcode: OpCode,
    masked: bool,
    length: PayloadLen,
    k: int,
) -> Result<(FrameHead, int), FrameError> {
    if !masked {
        Ok((FrameHead { fin, opcode, mask: Mask::Plain, length }, k))
    } else if s.len() < k + 4 {
        Err(FrameError::NotEnoughData)
    } else {
        let key = s.subrange(k, k + 4);
        let mask = if key == seq![0u8, 0u8, 0u8, 0u8] {
            Mask::Skip
        } else {
            Mask::Key(spec_key_of(key))
        };
        Ok((FrameHead { fin, opcode, mask, length }, k + 4))
    }
}

impl FrameHead {
    pub fn new(fin: Fin, opcode: OpCode, mask: Mask, length: PayloadLen) -> (r: Self)
        ensures
            r == (FrameHead { fin, opcode, mask, length }),
    {
        FrameHead { fin, opcode, mask, length }
    }

    /// The size this head takes on the wire.
    pub fn head_size(&self) -> (r: usize)
        ensures
            r == spec_head_size(*self),
            2 <= r <= 14,
    {
        let ext: usize = match self.length {
            PayloadLen::Standard(_) => 0,
            PayloadLen::Extended1(_) => 2,
            PayloadLen::Extended2(_) => 8,
        };
        let key: usize = match self.mask {
            Mask::Plain => 0,
            _ => 4,
        };
        2 + ext + key
    }

    /// Encode into the front of `buf`, returning the count of written bytes.
    /// Fails, writing nothing, when the buffer is shorter than the head.
    pub fn encode(&self, buf: &mut Vec<u8>) -> (r: Result<usize, FrameError>)
        requires
            spec_head_wf(*self),
        ensures
            match r {
                Ok(n) => {
                    &&& n == spec_head_size(*self)
                    &&& n <= old(buf)@.len()
                    &&& final(buf)@ == spec_encode_head(*self) + old(buf)@.skip(n as int)
                },
                Err(e) => {
                    &&& e == FrameError::NotEnoughCapacity
                    &&& old(buf)@.len() < spec_head_size(*self)
                    &&& final(buf)@ == old(buf)@
                },
            },
    {
        if buf.len() < self.head_size() {
            return Err(FrameError::NotEnoughCapacity);
        }
        Ok(self.encode_unchecked(buf))
    }

    /// Encode into the front of `buf`, which the caller has sized to hold
    /// any head (14 bytes are always enough).
    pub fn encode_unchecked(&self, buf: &mut Vec<u8>) -> (n: usize)
        requires
            spec_head_wf(*self),
            old(buf)@.len() >= spec_head_size(*self),
        ensures
            n == spec_head_size(*self),
            final(buf)@.len() == old(buf)@.len(),
            final(buf)@ == spec_encode_head(*self) + old(buf)@.skip(n as int),
    {
        let mut w = Writer::new(buf);
        let b0 = self.fin.to_flag() | self.opcode.to_flag();
        let b1 = self.mask.to_flag() | self.length.to_flag();
        w.write_byte(buf, b0);
        w.write_byte(buf, b1);
        match self.length {
            PayloadLen::Standard(_) => {},
            PayloadLen::Extended1(v) => {
                let bytes = u16_to_be(v);
                w.write_slice(buf, vstd::array::array_as_slice(&bytes));
            },
            PayloadLen::Extended2(v) => {
                let bytes = u64_to_be(v);
                w.write_slice(buf, vstd::array::array_as_slice(&bytes));
            },
        }
        match self.mask {
            Mask::Key(k) => {
                w.write_slice(buf, vstd::array::array_as_slice(&k));
            },
            Mask::Skip => {
                let zero: [u8; 4] = [0, 0, 0, 0];
                w.write_slice(buf, vstd::array::array_as_slice(&zero));
            },
            Mask::Plain => {},
        }
        assert(final(buf)@ =~= spec_encode_head(*self) + old(buf)@.skip(spec_head_size(*self)));
        w.pos()
    }

    /// Decode a head from the front of `buf`, returning it with the count of
    /// bytes it took. `NotEnoughData` asks the caller for more bytes.
    pub fn decode(buf: &[u8]) -> (r: Result<(Self, usize), FrameError>)
        ensures
            match r {
                Ok((h, n)) => spec_decode_head(buf@) == Ok::<(FrameHead, int), FrameError>(
                    (h, n as int),
                ),
                Err(e) => spec_decode_head(buf@) == Err::<(FrameHead, int), FrameError>(e),
            },
    {
        if buf.len() < 2 {
            return Err(FrameError::NotEnoughData);
        }
        let b0 = *vstd::slice::slice_index_get(buf, 0);
        let b1 = *vstd::slice::slice_index_get(buf, 1);
        let fin = match Fin::from_flag(b0) {
            Ok(f) => f,
            Err(e) => { return Err(e); },
        };
        let opcode = match OpCode::from_flag(b0) {
            Ok(o) => o,
            Err(e) => { return Err(e); },
        };
        let masked = b1 & 0x80 == 0x80;
        let mut n: usize = 2;
        let length = match PayloadLen::from_flag(b1) {
            PayloadLen::Standard(v) => PayloadLen::Standard(v),
            PayloadLen::Extended1(_) => {
                if buf.len() < 4 {
                    return Err(FrameError::NotEnoughData);
                }
                n = 4;
                let bytes = [
                    *vstd::slice::slice_index_get(buf, 2),
                    *vstd::slice::slice_index_get(buf, 3),
                ];
                assert(bytes@ =~= buf@.subrange(2, 4));
                PayloadLen::from_byte2(bytes)
            },
            PayloadLen::Extended2(_) => {
                if buf.len() < 10 {
                    return Err(FrameError::NotEnoughData);
                }
                n = 10;
                let bytes = [
                    *vstd::slice::slice_index_get(buf, 2),
                    *vstd::slice::slice_index_get(buf, 3),
                    *vstd::slice::slice_index_get(buf, 4),
                    *vstd::slice::slice_index_get(buf, 5),
                    *vstd::slice::slice_index_get(buf, 6),
                    *vstd::slice::slice_index_get(buf, 7),
                    *vstd::slice::slice_index_get(buf, 8),
                    *vstd::slice::slice_index_get(buf, 9),
                ];
                assert(bytes@ =~= buf@.subrange(2, 10));
                PayloadLen::from_byte8(bytes)
            },
        };
        if !masked {
            return Ok((FrameHead { fin, opcode, mask: Mask::Plain, length }, n));
        }
        if buf.len() - n < 4 {
            return Err(FrameError::NotEnoughData);
        }
        let key = [
            *vstd::slice::slice_index_get(buf, n),
            *vstd::slice::slice_index_get(buf, n + 1),
            *vstd::slice::slice_index_get(buf, n + 2),
            *vstd::slice::slice_index_get(buf, n + 3),
        ];
        assert(key@ =~= buf@.subrange(n as int, n + 4));
        let mask = if key[0] == 0 && key[1] == 0 && key[2] == 0 && key[3] == 0 {
            proof {
                assert(buf@.subrange(n as int, n + 4) =~= seq![0u8, 0u8, 0u8, 0u8]);
            }
            Mask::Skip
        } else {
            proof {
                assert(buf@.subrange(n as int, n + 4) != seq![0u8, 0u8, 0u8, 0u8]);
                assert(spec_key_of(buf@.subrange(n as int, n + 4)) =~= key);
            }
            Mask::Key(key)
        };
        Ok((FrameHead { fin, opcode, mask, length }, n + 4))
    }
}

/// The minimum encoding picks the correct length-field width at every
/// boundary: none below 126, two bytes below 65536, eight bytes above.
pub proof fn lemma_length_field_width(n: u64)
    ensures
        n < 126 ==> spec_ext_len_bytes(spec_len_from_num(n)).len() == 0,
        126 <= n < 65536 ==> spec_ext_len_bytes(spec_len_from_num(n)).len() == 2,
        n >= 65536 ==> spec_ext_len_bytes(spec_len_from_num(n)).len() == 8,
{
}

/// Round trip of the head codec: a legal head, encoded and laid in front of
/// any trailing bytes, decodes to the same head, consuming exactly the
/// encoded bytes.
pub proof fn lemma_head_roundtrip(h: FrameHead, rest: Seq<u8>)
    requires
        spec_head_legal(h),
    ensures
        spec_decode_head(spec_encode_head(h) + rest) == Ok::<(FrameHead, int), FrameError>(
            (h, spec_head_size(h)),
        ),
{
    let enc = spec_encode_head(h);
    let s = enc + rest;
    let f = spec_fin_flag(h.fin);
    let o = spec_opcode_value(h.opcode);
    let m = spec_mask_flag(h.mask);
    let lf = spec_len_to_flag(h.length);
    let b0 = f | o;
    let b1 = m | lf;
    assert(s[0] == b0 && s[1] == b1);
    assert((f == 0x80u8 || f == 0x00u8) && (o == 0x00u8 || o == 0x01u8 || o == 0x02u8 || o
        == 0x08u8 || o == 0x09u8 || o == 0x0au8));
    assert(b0 & 0xf0 == f && b0 & 0x0f == o) by (bit_vector)
        requires
            b0 == f | o,
            f == 0x80u8 || f == 0x00u8,
            o == 0x00u8 || o == 0x01u8 || o == 0x02u8 || o == 0x08u8 || o == 0x09u8 || o == 0x0au8,
    ;
    assert(spec_fin_from_flag(s[0]) == Ok::<Fin, FrameError>(h.fin));
    assert(spec_opcode_from_flag(s[0]) == Ok::<OpCode, FrameError>(h.opcode));
    assert((m == 0x80u8 || m == 0x00u8) && lf <= 127);
    assert(b1 & 0x80 == m && b1 & 0x7f == lf) by (bit_vector)
        requires
            b1 == m | lf,
            m == 0x80u8 || m == 0x00u8,
            lf <= 127u8,
    ;
    let masked = s[1] & 0x80 == 0x80;
    assert(masked == (h.mask is Key || h.mask is Skip));
    let ext = spec_ext_len_bytes(h.length);
    let kb = spec_mask_bytes(h.mask);
    let k: int = 2 + ext.len() as int;
    match h.length {
        PayloadLen::Standard(v) => {
            assert(lf == v && v <= 125);
            assert(spec_len_from_flag(s[1]) == PayloadLen::Standard(v));
        },
        PayloadLen::Extended1(v) => {
            assert(spec_len_from_flag(s[1]) == PayloadLen::Extended1(0u16));
            assert(s.len() >= 4);
            assert(s.subrange(2, 4) =~= spec_u16_to_be(v));
            lemma_u16_be_roundtrip(v);
        },
        PayloadLen::Extended2(v) => {
            assert(spec_len_from_flag(s[1]) == PayloadLen::Extended2(0u64));
            assert(s.len() >= 10);
            assert(s.subrange(2, 10) =~= spec_u64_to_be(v));
            lemma_u64_be_roundtrip(v);
        },
    }
    match h.mask {
        Mask::Plain => {
            assert(spec_decode_tail(s, h.fin, h.opcode, false, h.length, k)
                == Ok::<(FrameHead, int), FrameError>((h, k)));
        },
        Mask::Skip => {
            assert(s.len() >= k + 4);
            assert(s.subrange(k, k + 4) =~= seq![0u8, 0u8, 0u8, 0u8]);
        },
        Mask::Key(key) => {
            assert(s.len() >= k + 4);
            assert(s.subrange(k, k + 4) =~= key@);
            assert(spec_key_of(key@) =~= key);
        },
    }
}

} // verus!
