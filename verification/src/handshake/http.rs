//! The underlying HTTP head parser, behind trusted wrappers, with its
//! outcome modelled as plain values.

use vstd::prelude::*;
use super::HttpHeader;
use super::HttpHeaderSpec;

verus! {

/// Outcome of parsing a request head: the consumed byte count, request
/// line and headers; or a request still incomplete; or malformed bytes,
/// with the parser's diagnostic.
pub enum ReqParse {
    Complete { n: usize, method: Vec<u8>, path: Vec<u8>, version: u8, headers: Vec<HttpHeader> },
    Partial,
    Malformed(httparse::Error),
}

/// Outcome of parsing a response head: the consumed byte count, status
/// line and headers; or a response still incomplete; or malformed bytes.
pub enum RespParse {
    Complete { n: usize, version: u8, code: u16, headers: Vec<HttpHeader> },
    Partial,
    Malformed(httparse::Error),
}

/// A request parse as the contracts see it; the diagnostic of malformed
/// bytes is opaque and carried only by the executable value.
pub ghost enum ReqParseSpec {
    Complete { n: int, method: Seq<u8>, path: Seq<u8>, version: u8, headers: Seq<HttpHeaderSpec> },
    Partial,
    Malformed,
}

/// A response parse as the contracts see it.
pub ghost enum RespParseSpec {
    Complete { n: int, version: u8, code: u16, headers: Seq<HttpHeaderSpec> },
    Partial,
    Malformed,
}

impl View for ReqParse {
    type V = ReqParseSpec;

    open spec fn view(&self) -> ReqParseSpec {
        match self {
            ReqParse::Complete { n, method, path, version, headers } => ReqParseSpec::Complete {
                n: *n as int,
                method: method@,
                path: path@,
                version: *version,
                headers: headers@.map_values(|h: HttpHeader| h@),
            },
            ReqParse::Partial => ReqParseSpec::Partial,
            ReqParse::Malformed(_) => ReqParseSpec::Malformed,
        }
    }
}

impl View for RespParse {
    type V = RespParseSpec;

    open spec fn view(&self) -> RespParseSpec {
        match self {
            RespParse::Complete { n, version, code, headers } => RespParseSpec::Complete {
                n: *n as int,
                version: *version,
                code: *code,
                headers: headers@.map_values(|h: HttpHeader| h@),
            },
            RespParse::Partial => RespParseSpec::Partial,
            RespParse::Malformed(_) => RespParseSpec::Malformed,
        }
    }
}

/// What the HTTP parser makes of these bytes as a request head, given this
/// many header slots.
pub uninterp spec fn http_request_parse(b: Seq<u8>, cap: nat) -> ReqParseSpec;

/// What the HTTP parser makes of these bytes as a response head, given
/// this many header slots.
pub uninterp spec fn http_response_parse(b: Seq<u8>, cap: nat) -> RespParseSpec;

/// Relies on httparse::Request::parse: parses an HTTP/1.1 request head out
/// of the bytes; the outcome is a function of the bytes and the header
/// limit alone, and a complete head consumed no more bytes than given.
#[verifier::external_body]
pub(crate) fn parse_http_request(buf: &[u8], cap: usize) -> (r: ReqParse)
    ensures
        r@ == http_request_parse(buf@, cap as nat),
        r@ matches ReqParseSpec::Complete { n, .. } ==> 0 <= n <= buf@.len(),
{
    let mut slots = vec![httparse::EMPTY_HEADER; cap];
    let mut req = httparse::Request::new(&mut slots);
    match req.parse(buf) {
        Ok(httparse::Status::Complete(n)) => ReqParse::Complete {
            n,
            method: req.method.unwrap_or("").as_bytes().to_vec(),
            path: req.path.unwrap_or("").as_bytes().to_vec(),
            version: req.version.unwrap_or(9),
            headers: req.headers.iter().map(|h| HttpHeader::new(h.name.as_bytes().to_vec(), h.value.to_vec())).collect(),
        },
        Ok(httparse::Status::Partial) => ReqParse::Partial,
        Err(e) => ReqParse::Malformed(e),
    }
}

/// Relies on httparse::Response::parse: parses an HTTP/1.1 response head
/// out of the bytes; the outcome is a function of the bytes and the header
/// limit alone, and a complete head consumed no more bytes than given.
#[verifier::external_body]
pub(crate) fn parse_http_response(buf: &[u8], cap: usize) -> (r: RespParse)
    ensures
        r@ == http_response_parse(buf@, cap as nat),
        r@ matches RespParseSpec::Complete { n, .. } ==> 0 <= n <= buf@.len(),
{
    let mut slots = vec![httparse::EMPTY_HEADER; cap];
    let mut resp = httparse::Response::new(&mut slots);
    match resp.parse(buf) {
        Ok(httparse::Status::Complete(n)) => RespParse::Complete {
            n,
            version: resp.version.unwrap_or(9),
            code: resp.code.unwrap_or(0),
            headers: resp.headers.iter().map(|h| HttpHeader::new(h.name.as_bytes().to_vec(), h.value.to_vec())).collect(),
        },
        Ok(httparse::Status::Partial) => RespParse::Partial,
        Err(e) => RespParse::Malformed(e),
    }
}

} // verus!
