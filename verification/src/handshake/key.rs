//! Key exchange: `sec-websocket-key` generation and `sec-websocket-accept`
//! derivation.

use vstd::prelude::*;
use vstd::string::StringSliceAdditionalSpecFns;

verus! {

/// The protocol's fixed GUID, appended to the key before hashing.
pub open spec fn spec_guid() -> Seq<u8> {
    "258EAFA5-E914-47DA-95CA-C5AB0DC85B11".spec_bytes()
}

/// What the standard base64 encoding makes of a byte sequence.
pub uninterp spec fn base64_of(s: Seq<u8>) -> Seq<u8>;

/// What the SHA-1 digest of a byte sequence is.
pub uninterp spec fn sha1_of(s: Seq<u8>) -> Seq<u8>;

/// Relies on base64's STANDARD engine (RFC 4648 alphabet, padded): the
/// output is a function of the input bytes alone, four characters for
/// every started group of three input bytes.
#[verifier::external_body]
fn base64_standard(input: &[u8]) -> (r: Vec<u8>)
    requires
        4 * ((input@.len() + 2) / 3) <= usize::MAX,
    ensures
        r@ == base64_of(input@),
        r@.len() == 4 * ((input@.len() + 2) / 3),
{
    base64::Engine::encode(&base64::engine::general_purpose::STANDARD, input).into_bytes()
}

/// Relies on sha1: the 20-byte digest is a function of the input alone.
#[verifier::external_body]
fn sha1_digest(input: &[u8]) -> (r: Vec<u8>)
    ensures
        r@ == sha1_of(input@),
        r@.len() == 20,
{
    <sha1::Sha1 as sha1::Digest>::digest(input).to_vec()
}

/// The protocol GUID as bytes.
pub fn guid_bytes() -> (r: Vec<u8>)
    ensures
        r@ == spec_guid(),
{
    let s: &str = "258EAFA5-E914-47DA-95CA-C5AB0DC85B11";
    vstd::slice::slice_to_vec(s.as_bytes())
}

/// A fresh `sec-websocket-key`: 16 random bytes, base64-encoded to 24
/// characters.
pub fn new_sec_key() -> (r: Vec<u8>)
    ensures
        r@.len() == 24,
{
    let input: [u8; 16] = rand::random();
    base64_standard(vstd::array::array_as_slice(&input))
}

/// Derive `sec-websocket-accept` from `sec-websocket-key`: the base64 of
/// the SHA-1 of the key followed by the protocol GUID, 28 characters.
pub fn derive_accept_key(sec_key: &[u8]) -> (r: Vec<u8>)
    requires
        sec_key@.len() + 36 <= usize::MAX,
    ensures
        r@ == base64_of(sha1_of(sec_key@ + spec_guid())),
        r@.len() == 28,
{
    let mut input = vstd::slice::slice_to_vec(sec_key);
    let mut guid = guid_bytes();
    proof {
        vstd::string::is_ascii_spec_bytes("258EAFA5-E914-47DA-95CA-C5AB0DC85B11");
        proof_ascii_guid();
    }
    input.append(&mut guid);
    let digest = sha1_digest(input.as_slice());
    base64_standard(digest.as_slice())
}

/// The GUID is a 36-character ASCII literal.
proof fn proof_ascii_guid()
    ensures
        spec_guid().len() == 36,
{
    reveal_strlit("258EAFA5-E914-47DA-95CA-C5AB0DC85B11");
    let s: &str = "258EAFA5-E914-47DA-95CA-C5AB0DC85B11";
    assert(vstd::string::is_ascii(s));
    vstd::string::is_ascii_spec_bytes(s);
    assert(s.spec_bytes() =~= Seq::new(s@.len(), |i| s@.index(i) as u8));
}

} // verus!
