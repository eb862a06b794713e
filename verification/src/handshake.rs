//! The handshake: the HTTP/1.1 Upgrade request and the 101 Switching
//! Protocols response, and the key exchange between them.

pub mod http;
pub mod key;
pub mod request;
pub mod response;

use vstd::prelude::*;
use vstd::string::StringSliceAdditionalSpecFns;
use crate::store::Writer;

pub use request::Request;
pub use response::Response;
pub use key::{derive_accept_key, new_sec_key};

verus! {

/// How many headers the decoder will parse at most, unless a custom limit
/// is given.
pub const MAX_ALLOW_HEADERS: usize = 32;

/// One HTTP header: a name and a value, both owned bytes.
#[derive(Debug, Clone, PartialEq, Eq)]
pub struct HttpHeader {
    pub name: Vec<u8>,
    pub value: Vec<u8>,
}

/// A header as the contracts see it.
pub ghost struct HttpHeaderSpec {
    pub name: Seq<u8>,
    pub value: Seq<u8>,
}

impl View for HttpHeader {
    type V = HttpHeaderSpec;

    open spec fn view(&self) -> HttpHeaderSpec {
        HttpHeaderSpec { name: self.name@, value: self.value@ }
    }
}

impl HttpHeader {
    pub fn new(name: Vec<u8>, value: Vec<u8>) -> (r: Self)
        ensures
            r.name == name,
            r.value == value,
    {
        HttpHeader { name, value }
    }

    /// The bytes this header takes on the wire: name, a colon and a space,
    /// the value, and the line break.
    pub fn len(&self) -> (r: usize)
        requires
            self.name@.len() + self.value@.len() + 4 <= usize::MAX,
        ensures
            r == self.name@.len() + self.value@.len() + 4,
    {
        self.name.len() + self.value.len() + 4
    }

    /// Room for [`MAX_ALLOW_HEADERS`] decoded headers.
    pub fn new_storage() -> (r: Vec<HttpHeader>)
        ensures
            r@.len() == 0,
    {
        Vec::new()
    }

    /// Room for a custom number of decoded headers.
    pub fn new_custom_storage(n: usize) -> (r: Vec<HttpHeader>)
        ensures
            r@.len() == 0,
    {
        Vec::new()
    }
}

impl Default for HttpHeader {
    fn default() -> (r: Self)
        ensures
            r.name@.len() == 0,
            r.value@.len() == 0,
    {
        HttpHeader { name: Vec::new(), value: Vec::new() }
    }
}

/// A byte lowered as ASCII: letters fold, everything else stays.
pub open spec fn spec_ascii_lower(b: u8) -> u8 {
    if 0x41 <= b <= 0x5a {
        (b + 0x20) as u8
    } else {
        b
    }
}

/// Byte sequences equal up to ASCII case, as RFC 6455 compares header
/// values.
pub open spec fn spec_eq_ignore_case(a: Seq<u8>, b: Seq<u8>) -> bool {
    a.len() == b.len() && forall|i: int| 0 <= i < a.len() ==> spec_ascii_lower(a[i])
        == spec_ascii_lower(b[i])
}

/// Compare two byte strings ignoring ASCII case.
pub fn eq_ignore_case(a: &[u8], b: &[u8]) -> (r: bool)
    ensures
        r == spec_eq_ignore_case(a@, b@),
{
    if a.len() != b.len() {
        return false;
    }
    let n = a.len();
    let mut i: usize = 0;
    while i < n
        invariant
            i <= n,
            n == a@.len() == b@.len(),
            forall|j: int| 0 <= j < i ==> spec_ascii_lower(a@[j]) == spec_ascii_lower(b@[j]),
        decreases n - i,
    {
        let mut x = *vstd::slice::slice_index_get(a, i);
        let mut y = *vstd::slice::slice_index_get(b, i);
        if 0x41 <= x && x <= 0x5a {
            x = x + 0x20;
        }
        if 0x41 <= y && y <= 0x5a {
            y = y + 0x20;
        }
        if x != y {
            return false;
        }
        i += 1;
    }
    true
}

/// A run of headers as the contracts see it.
pub open spec fn headers_view(hs: Seq<HttpHeader>) -> Seq<HttpHeaderSpec> {
    hs.map_values(|h: HttpHeader| h@)
}

/// The wire bytes of one header line.
pub open spec fn spec_header_bytes(name: Seq<u8>, value: Seq<u8>) -> Seq<u8> {
    name + ": ".spec_bytes() + value + "\r\n".spec_bytes()
}

/// The wire bytes of a run of header lines.
pub open spec fn spec_headers_bytes(hs: Seq<HttpHeaderSpec>) -> Seq<u8>
    decreases hs.len(),
{
    if hs.len() == 0 {
        Seq::empty()
    } else {
        spec_header_bytes(hs[0].name, hs[0].value) + spec_headers_bytes(hs.skip(1))
    }
}

/// Append `src` at the writer's cursor: the prefix grows by `src`, the tail
/// beyond the cursor still holds the buffer's original bytes `orig`.
pub(crate) fn emit(w: &mut Writer, buf: &mut Vec<u8>, src: &[u8], Ghost(orig): Ghost<Seq<u8>>)
    requires
        old(w).cap == old(buf)@.len(),
        old(buf)@.len() == orig.len(),
        old(w).pos + src@.len() <= old(w).cap,
        old(buf)@.skip(old(w).pos as int) == orig.skip(old(w).pos as int),
    ensures
        final(w).cap == old(w).cap,
        final(w).pos == old(w).pos + src@.len(),
        final(buf)@.len() == old(buf)@.len(),
        final(buf)@.subrange(0, final(w).pos as int) == old(buf)@.subrange(
            0,
            old(w).pos as int,
        ) + src@,
        final(buf)@.skip(final(w).pos as int) == orig.skip(final(w).pos as int),
{
    let ghost pos0 = w.pos as int;
    let ghost len = src@.len() as int;
    w.write_slice(buf, src);
    proof {
        assert(buf@.subrange(0, pos0 + len) =~= old(buf)@.subrange(0, pos0) + src@);
        assert(buf@.skip(pos0 + len) =~= orig.skip(pos0 + len)) by {
            assert forall|j: int| pos0 + len <= j < orig.len() implies #[trigger] buf@[j]
                == orig[j] by {
                assert(buf@[j] == old(buf)@.skip(pos0 + len)[j - pos0 - len]);
                assert(old(buf)@[j] == old(buf)@.skip(pos0)[j - pos0]);
            }
        }
    }
}

/// Append one header line at the writer's cursor.
pub(crate) fn emit_header(
    w: &mut Writer,
    buf: &mut Vec<u8>,
    name: &[u8],
    value: &[u8],
    Ghost(orig): Ghost<Seq<u8>>,
)
    requires
        old(w).cap == old(buf)@.len(),
        old(buf)@.len() == orig.len(),
        old(w).pos + name@.len() + 2 + value@.len() + 2 <= old(w).cap,
        old(buf)@.skip(old(w).pos as int) == orig.skip(old(w).pos as int),
    ensures
        final(w).cap == old(w).cap,
        final(w).pos == old(w).pos + name@.len() + 2 + value@.len() + 2,
        final(buf)@.len() == old(buf)@.len(),
        final(buf)@.subrange(0, final(w).pos as int) == old(buf)@.subrange(
            0,
            old(w).pos as int,
        ) + spec_header_bytes(name@, value@),
        final(buf)@.skip(final(w).pos as int) == orig.skip(final(w).pos as int),
{
    proof {
        lemma_sep_lens();
    }
    let ghost prefix0 = buf@.subrange(0, w.pos as int);
    let sp: &str = ": ";
    let crlf: &str = "\r\n";
    emit(w, buf, name, Ghost(orig));
    emit(w, buf, sp.as_bytes(), Ghost(orig));
    emit(w, buf, value, Ghost(orig));
    emit(w, buf, crlf.as_bytes(), Ghost(orig));
    proof {
        assert(buf@.subrange(0, w.pos as int) =~= prefix0 + spec_header_bytes(name@, value@));
    }
}

/// The two separator literals are two bytes each.
pub proof fn lemma_sep_lens()
    ensures
        ": ".spec_bytes().len() == 2,
        "\r\n".spec_bytes().len() == 2,
{
    reveal_strlit(": ");
    reveal_strlit("\r\n");
    let sp: &str = ": ";
    let crlf: &str = "\r\n";
    assert(vstd::string::is_ascii(sp));
    assert(vstd::string::is_ascii(crlf));
    vstd::string::is_ascii_spec_bytes(sp);
    vstd::string::is_ascii_spec_bytes(crlf);
}

/// The sum, unless it leaves the machine's range.
pub(crate) fn add_len(total: usize, x: usize) -> (r: Option<usize>)
    ensures
        r matches Some(t) ==> t == total + x,
        r is None ==> total + x > usize::MAX,
{
    total.checked_add(x)
}

} // verus!
