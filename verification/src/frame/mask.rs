use vstd::prelude::*;
use crate::error::FrameError;

verus! {

/// Payload mask of a frame.
///
/// `Skip` stands for a present mask bit with an all-zero key: the XOR is a
/// no-op, so a sender can satisfy the protocol's masking rule without paying
/// for it, and a receiver can skip the unmasking. The decoder collapses an
/// all-zero key to `Skip`.
#[derive(Debug, Clone, Copy, PartialEq, Eq)]
pub enum Mask {
    /// Mask bit set, non-zero four-byte key.
    Key([u8; 4]),
    /// Mask bit set, all-zero key: no XOR needed.
    Skip,
    /// Mask bit clear, no key on the wire.
    Plain,
}

/// The bit the mask contributes to the second head byte.
pub open spec fn spec_mask_flag(m: Mask) -> u8 {
    match m {
        Mask::Key(_) => 0x80u8,
        Mask::Skip => 0x80u8,
        Mask::Plain => 0x00u8,
    }
}

/// The mask kind read from the top bit of the second head byte: `Skip`
/// until the four key bytes are read, `Plain` when the bit is clear.
pub open spec fn spec_mask_from_flag(b: u8) -> Result<Mask, FrameError> {
    if b & 0x80 == 0x80 {
        Ok(Mask::Skip)
    } else {
        Ok(Mask::Plain)
    }
}

/// One payload byte XOR-ed with its key byte.
pub open spec fn spec_mask_byte(key: [u8; 4], i: int, b: u8) -> u8 {
    b ^ key@[i % 4]
}

/// A byte sequence XOR-ed with the repeating four-byte key, the first byte
/// with key byte 0.
pub open spec fn spec_apply_mask(key: [u8; 4], s: Seq<u8>) -> Seq<u8> {
    Seq::new(s.len(), |i: int| spec_mask_byte(key, i, s[i]))
}

/// What a receiver holds after XOR-ing a payload with `m`'s key: unchanged
/// but for a non-zero key.
pub open spec fn spec_unmask(m: Mask, s: Seq<u8>) -> Seq<u8> {
    match m {
        Mask::Key(k) => spec_apply_mask(k, s),
        _ => s,
    }
}

impl Mask {
    /// Parse from the second head byte. The key bytes, and with them the
    /// `Key`/`Skip` distinction, come later in the head.
    pub fn from_flag(b: u8) -> (r: Result<Self, FrameError>)
        ensures
            r == spec_mask_from_flag(b),
    {
        let bit = b & 0x80;
        if bit == 0x80 {
            Ok(Mask::Skip)
        } else {
            assert(bit == 0x00) by (bit_vector)
                requires
                    bit == b & 0x80 && bit != 0x80,
            ;
            Ok(Mask::Plain)
        }
    }

    /// The bit this mask contributes to the second head byte.
    pub fn to_flag(&self) -> (r: u8)
        ensures
            r == spec_mask_flag(*self),
    {
        match self {
            Mask::Key(_) => 0x80,
            Mask::Skip => 0x80,
            Mask::Plain => 0x00,
        }
    }
}

/// Masking twice with one key gives the bytes back.
pub proof fn lemma_mask_involution(key: [u8; 4], s: Seq<u8>)
    ensures
        spec_apply_mask(key, spec_apply_mask(key, s)) == s,
{
    let once = spec_apply_mask(key, s);
    let twice = spec_apply_mask(key, once);
    assert forall|i: int| 0 <= i < s.len() implies twice[i] == s[i] by {
        let b = s[i];
        let k = key@[i % 4];
        assert((b ^ k) ^ k == b) by (bit_vector);
    }
    assert(twice =~= s);
}

/// An all-zero key masks nothing.
pub proof fn lemma_mask_zero_key(s: Seq<u8>)
    ensures
        spec_apply_mask([0u8, 0u8, 0u8, 0u8], s) == s,
{
    let key = [0u8, 0u8, 0u8, 0u8];
    assert forall|i: int| 0 <= i < s.len() implies spec_apply_mask(key, s)[i] == s[i] by {
        let b = s[i];
        assert(b ^ 0u8 == b) by (bit_vector);
        assert(key@[i % 4] == 0u8);
    }
    assert(spec_apply_mask(key, s) =~= s);
}

/// Mask `buf[beg..end]` in place, byte by byte; the byte at `beg` meets
/// key byte 0.
pub fn apply_mask_range(key: [u8; 4], buf: &mut Vec<u8>, beg: usize, end: usize)
    requires
        beg <= end <= old(buf)@.len(),
    ensures
        final(buf)@.len() == old(buf)@.len(),
        final(buf)@.subrange(beg as int, end as int) == spec_apply_mask(
            key,
            old(buf)@.subrange(beg as int, end as int),
        ),
        forall|j: int| 0 <= j < old(buf)@.len() && !(beg <= j < end) ==> final(buf)@[j]
            == old(buf)@[j],
{
    let mut i: usize = beg;
    while i < end
        invariant
            beg <= i <= end <= old(buf)@.len(),
            buf@.len() == old(buf)@.len(),
            forall|j: int| beg <= j < i ==> buf@[j] == spec_mask_byte(key, j - beg, old(buf)@[j]),
            forall|j: int| 0 <= j < buf@.len() && !(beg <= j < i) ==> buf@[j] == old(buf)@[j],
        decreases end - i,
    {
        let b = buf[i];
        buf.set(i, b ^ key[(i - beg) % 4]);
        i += 1;
    }
    assert(final(buf)@.subrange(beg as int, end as int) =~= spec_apply_mask(
        key,
        old(buf)@.subrange(beg as int, end as int),
    ));
}

/// Mask `buf[beg..end]` in place, four bytes per step with a byte-wise tail;
/// the byte at `beg` meets key byte 0. Produces exactly the bytes
/// `apply_mask_range` produces.
pub fn apply_mask4_range(key: [u8; 4], buf: &mut Vec<u8>, beg: usize, end: usize)
    requires
        beg <= end <= old(buf)@.len(),
    ensures
        final(buf)@.len() == old(buf)@.len(),
        final(buf)@.subrange(beg as int, end as int) == spec_apply_mask(
            key,
            old(buf)@.subrange(beg as int, end as int),
        ),
        forall|j: int| 0 <= j < old(buf)@.len() && !(beg <= j < end) ==> final(buf)@[j]
            == old(buf)@[j],
{
    let mut i: usize = beg;
    while end - i >= 4
        invariant
            beg <= i <= end <= old(buf)@.len(),
            (i - beg) % 4 == 0,
            buf@.len() == old(buf)@.len(),
            forall|j: int| beg <= j < i ==> buf@[j] == spec_mask_byte(key, j - beg, old(buf)@[j]),
            forall|j: int| 0 <= j < buf@.len() && !(beg <= j < i) ==> buf@[j] == old(buf)@[j],
        decreases end - i,
    {
        let b0 = buf[i];
        let b1 = buf[i + 1];
        let b2 = buf[i + 2];
        let b3 = buf[i + 3];
        buf.set(i, b0 ^ key[0]);
        buf.set(i + 1, b1 ^ key[1]);
        buf.set(i + 2, b2 ^ key[2]);
        buf.set(i + 3, b3 ^ key[3]);
        proof {
            assert((i - beg) % 4 == 0 && (i + 1 - beg) % 4 == 1 && (i + 2 - beg) % 4 == 2 && (i
                + 3 - beg) % 4 == 3);
        }
        i += 4;
    }
    while i < end
        invariant
            beg <= i <= end <= old(buf)@.len(),
            buf@.len() == old(buf)@.len(),
            forall|j: int| beg <= j < i ==> buf@[j] == spec_mask_byte(key, j - beg, old(buf)@[j]),
            forall|j: int| 0 <= j < buf@.len() && !(beg <= j < i) ==> buf@[j] == old(buf)@[j],
        decreases end - i,
    {
        let b = buf[i];
        buf.set(i, b ^ key[(i - beg) % 4]);
        i += 1;
    }
    assert(final(buf)@.subrange(beg as int, end as int) =~= spec_apply_mask(
        key,
        old(buf)@.subrange(beg as int, end as int),
    ));
}

/// Mask the whole buffer in place, byte by byte.
pub fn apply_mask(key: [u8; 4], buf: &mut Vec<u8>)
    ensures
        final(buf)@ == spec_apply_mask(key, old(buf)@),
{
    let len = buf.len();
    apply_mask_range(key, buf, 0, len);
    assert(final(buf)@ =~= spec_apply_mask(key, old(buf)@)) by {
        assert(old(buf)@.subrange(0, len as int) =~= old(buf)@);
    }
}

/// Mask the whole buffer in place, four bytes at a time. Produces exactly
/// the bytes `apply_mask` produces.
pub fn apply_mask4(key: [u8; 4], buf: &mut Vec<u8>)
    ensures
        final(buf)@ == spec_apply_mask(key, old(buf)@),
{
    let len = buf.len();
    apply_mask4_range(key, buf, 0, len);
    assert(final(buf)@ =~= spec_apply_mask(key, old(buf)@)) by {
        assert(old(buf)@.subrange(0, len as int) =~= old(buf)@);
    }
}

/// Relies on rand::random: a value drawn from the thread-local generator;
/// nothing is promised of it.
pub assume_specification<T>[ rand::random::<T> ]() -> (r: T)
    where
        rand::distributions::Standard: rand::distributions::Distribution<T>,
;

/// A fresh random four-byte mask key.
pub fn new_rand_key() -> [u8; 4] {
    rand::random::<[u8; 4]>()
}

} // verus!
