//! The client's upgrade request: `GET <path> HTTP/1.1` with the five
//! required headers, then any further headers, then a blank line.

use vstd::prelude::*;
use vstd::string::StringSliceAdditionalSpecFns;
use crate::error::HandshakeError;
use crate::store::Writer;
use super::{HttpHeader, HttpHeaderSpec, MAX_ALLOW_HEADERS};
use super::{add_len, emit, emit_header, eq_ignore_case, headers_view, spec_eq_ignore_case,
    spec_header_bytes, spec_headers_bytes};
use super::http::{ReqParse, ReqParseSpec, http_request_parse, parse_http_request};

verus! {

/// A client upgrade request: the three fields of its own plus whatever
/// other headers were sent or are to be sent.
#[derive(Debug, Clone, PartialEq, Eq)]
pub struct Request {
    pub path: Vec<u8>,
    pub host: Vec<u8>,
    pub sec_key: Vec<u8>,
    pub other_headers: Vec<HttpHeader>,
    pub max_headers: usize,
}

/// The five required header slots while classifying a parsed request;
/// a slot is filled by the first header of its name.
pub ghost struct ReqSlots {
    pub host: Seq<u8>,
    pub upgrade: Seq<u8>,
    pub connection: Seq<u8>,
    pub sec_key: Seq<u8>,
    pub version: Seq<u8>,
    pub others: Seq<HttpHeaderSpec>,
}

/// Empty slots: nothing matched yet.
pub open spec fn spec_req_slots_empty() -> ReqSlots {
    ReqSlots {
        host: Seq::empty(),
        upgrade: Seq::empty(),
        connection: Seq::empty(),
        sec_key: Seq::empty(),
        version: Seq::empty(),
        others: Seq::empty(),
    }
}

/// One classification step: the header fills the first required slot of
/// its name that is still empty, else joins the other headers.
pub open spec fn spec_req_classify_step(acc: ReqSlots, h: HttpHeaderSpec) -> ReqSlots {
    if spec_eq_ignore_case(h.name, "host".spec_bytes()) && acc.host.len() == 0 {
        ReqSlots { host: h.value, ..acc }
    } else if spec_eq_ignore_case(h.name, "upgrade".spec_bytes()) && acc.upgrade.len() == 0 {
        ReqSlots { upgrade: h.value, ..acc }
    } else if spec_eq_ignore_case(h.name, "connection".spec_bytes()) && acc.connection.len()
        == 0 {
        ReqSlots { connection: h.value, ..acc }
    } else if spec_eq_ignore_case(h.name, "sec-websocket-key".spec_bytes()) && acc.sec_key.len()
        == 0 {
        ReqSlots { sec_key: h.value, ..acc }
    } else if spec_eq_ignore_case(h.name, "sec-websocket-version".spec_bytes())
        && acc.version.len() == 0 {
        ReqSlots { version: h.value, ..acc }
    } else {
        ReqSlots { others: acc.others.push(h), ..acc }
    }
}

/// Classify a run of parsed headers, front first.
pub open spec fn spec_req_classify(hs: Seq<HttpHeaderSpec>, acc: ReqSlots) -> ReqSlots
    decreases hs.len(),
{
    if hs.len() == 0 {
        acc
    } else {
        spec_req_classify(hs.skip(1), spec_req_classify_step(acc, hs[0]))
    }
}

/// The request's validation verdict after classification: a missing
/// required header first (in the fixed order), then a wrong `upgrade`,
/// `connection` or `sec-websocket-version` value, compared ignoring case.
pub open spec fn spec_req_validate(c: ReqSlots) -> Option<HandshakeError> {
    if c.host.len() == 0 || c.upgrade.len() == 0 || c.connection.len() == 0 || c.sec_key.len()
        == 0 || c.version.len() == 0 {
        if c.host.len() == 0 {
            Some(HandshakeError::HttpHost)
        } else if c.upgrade.len() == 0 {
            Some(HandshakeError::Upgrade)
        } else if c.connection.len() == 0 {
            Some(HandshakeError::Connection)
        } else if c.sec_key.len() == 0 {
            Some(HandshakeError::SecWebSocketKey)
        } else {
            Some(HandshakeError::SecWebSocketVersion)
        }
    } else if !spec_eq_ignore_case(c.upgrade, "websocket".spec_bytes()) {
        Some(HandshakeError::Upgrade)
    } else if !spec_eq_ignore_case(c.connection, "upgrade".spec_bytes()) {
        Some(HandshakeError::Connection)
    } else if !spec_eq_ignore_case(c.version, "13".spec_bytes()) {
        Some(HandshakeError::SecWebSocketVersion)
    } else {
        None
    }
}

/// The wire bytes of a request with these fields.
pub open spec fn spec_encode_request(
    path: Seq<u8>,
    host: Seq<u8>,
    sec_key: Seq<u8>,
    others: Seq<HttpHeaderSpec>,
) -> Seq<u8> {
    "GET ".spec_bytes() + path + " HTTP/1.1\r\n".spec_bytes() + spec_header_bytes(
        "host".spec_bytes(),
        host,
    ) + spec_header_bytes("upgrade".spec_bytes(), "websocket".spec_bytes()) + spec_header_bytes(
        "connection".spec_bytes(),
        "upgrade".spec_bytes(),
    ) + spec_header_bytes("sec-websocket-key".spec_bytes(), sec_key) + spec_header_bytes(
        "sec-websocket-version".spec_bytes(),
        "13".spec_bytes(),
    ) + spec_headers_bytes(others) + "\r\n".spec_bytes()
}

/// Classify parsed headers into the five required slots and the rest.
fn req_classify(headers: &Vec<HttpHeader>) -> (r: (Vec<u8>, Vec<u8>, Vec<u8>, Vec<u8>, Vec<u8>,
    Vec<HttpHeader>))
    ensures
        ({
            let c = spec_req_classify(
                headers_view(headers@),
                spec_req_slots_empty(),
            );
            &&& r.0@ == c.host
            &&& r.1@ == c.upgrade
            &&& r.2@ == c.connection
            &&& r.3@ == c.sec_key
            &&& r.4@ == c.version
            &&& headers_view(r.5@) == c.others
        }),
{
    let ghost all = headers_view(headers@);
    let mut host: Vec<u8> = Vec::new();
    let mut upgrade: Vec<u8> = Vec::new();
    let mut connection: Vec<u8> = Vec::new();
    let mut sec_key: Vec<u8> = Vec::new();
    let mut version: Vec<u8> = Vec::new();
    let mut others: Vec<HttpHeader> = Vec::new();
    proof {
        assert(all.skip(0) =~= all);
        assert(headers_view(others@) =~= Seq::<HttpHeaderSpec>::empty());
    }
    let mut i: usize = 0;
    while i < headers.len()
        invariant
            i <= headers@.len(),
            all == headers_view(headers@),
            spec_req_classify(all, spec_req_slots_empty()) == spec_req_classify(
                all.skip(i as int),
                ReqSlots {
                    host: host@,
                    upgrade: upgrade@,
                    connection: connection@,
                    sec_key: sec_key@,
                    version: version@,
                    others: headers_view(others@),
                },
            ),
        decreases headers@.len() - i,
    {
        let h = &headers[i];
        let ghost acc = ReqSlots {
            host: host@,
            upgrade: upgrade@,
            connection: connection@,
            sec_key: sec_key@,
            version: version@,
            others: headers_view(others@),
        };
        if eq_ignore_case(h.name.as_slice(), "host".as_bytes()) && host.len() == 0 {
            host = vstd::slice::slice_to_vec(h.value.as_slice());
        } else if eq_ignore_case(h.name.as_slice(), "upgrade".as_bytes()) && upgrade.len() == 0 {
            upgrade = vstd::slice::slice_to_vec(h.value.as_slice());
        } else if eq_ignore_case(h.name.as_slice(), "connection".as_bytes()) && connection.len()
            == 0 {
            connection = vstd::slice::slice_to_vec(h.value.as_slice());
        } else if eq_ignore_case(h.name.as_slice(), "sec-websocket-key".as_bytes())
            && sec_key.len() == 0 {
            sec_key = vstd::slice::slice_to_vec(h.value.as_slice());
        } else if eq_ignore_case(h.name.as_slice(), "sec-websocket-version".as_bytes())
            && version.len() == 0 {
            version = vstd::slice::slice_to_vec(h.value.as_slice());
        } else {
            others.push(
                HttpHeader::new(
                    vstd::slice::slice_to_vec(h.name.as_slice()),
                    vstd::slice::slice_to_vec(h.value.as_slice()),
                ),
            );
        }
        proof {
            assert(all.skip(i as int)[0] == all[i as int]);
            assert(all.skip(i as int).skip(1) =~= all.skip(i + 1));
            assert(h@ == all[i as int]);
            assert(headers_view(others@) =~= spec_req_classify_step(
                acc,
                all[i as int],
            ).others || headers_view(others@) =~= acc.others);
        }
        i += 1;
    }
    proof {
        assert(all.skip(i as int) =~= Seq::<HttpHeaderSpec>::empty());
    }
    (host, upgrade, connection, sec_key, version, others)
}

impl Request {
    /// A request carrying these fields and no other headers, parsing at
    /// most [`MAX_ALLOW_HEADERS`] headers on decode.
    pub fn new(path: &[u8], host: &[u8], sec_key: &[u8]) -> (r: Self)
        ensures
            r.path@ == path@,
            r.host@ == host@,
            r.sec_key@ == sec_key@,
            r.other_headers@.len() == 0,
            r.max_headers == MAX_ALLOW_HEADERS,
    {
        Request {
            path: vstd::slice::slice_to_vec(path),
            host: vstd::slice::slice_to_vec(host),
            sec_key: vstd::slice::slice_to_vec(sec_key),
            other_headers: Vec::new(),
            max_headers: MAX_ALLOW_HEADERS,
        }
    }

    /// A request like [`new`](Self::new) makes, with a custom limit on the
    /// number of headers parsed on decode.
    pub fn new_custom(path: &[u8], host: &[u8], sec_key: &[u8], max_headers: usize) -> (r: Self)
        ensures
            r.path@ == path@,
            r.host@ == host@,
            r.sec_key@ == sec_key@,
            r.other_headers@.len() == 0,
            r.max_headers == max_headers,
    {
        Request {
            path: vstd::slice::slice_to_vec(path),
            host: vstd::slice::slice_to_vec(host),
            sec_key: vstd::slice::slice_to_vec(sec_key),
            other_headers: Vec::new(),
            max_headers,
        }
    }

    /// The wire bytes this request encodes to.
    pub open spec fn spec_encode(&self) -> Seq<u8> {
        spec_encode_request(
            self.path@,
            self.host@,
            self.sec_key@,
            headers_view(self.other_headers@),
        )
    }

    /// Encode into the front of `buf`, returning the count of written
    /// bytes; the required headers come first, in a fixed order, then the
    /// other headers. Fails, leaving the buffer as it was, when it is
    /// shorter than the encoded request.
    pub fn encode(&self, buf: &mut Vec<u8>) -> (r: Result<usize, HandshakeError>)
        ensures
            final(buf)@.len() == old(buf)@.len(),
            match r {
                Ok(n) => {
                    &&& n == self.spec_encode().len()
                    &&& n <= old(buf)@.len()
                    &&& final(buf)@ == self.spec_encode() + old(buf)@.skip(n as int)
                },
                Err(e) => {
                    &&& e == HandshakeError::NotEnoughCapacity
                    &&& old(buf)@.len() < self.spec_encode().len()
                    &&& final(buf)@ == old(buf)@
                },
            },
    {
        encode_request(&self.path, &self.host, &self.sec_key, &self.other_headers, buf)
    }

    /// Decode from `buf`: parse an HTTP request head, require method `GET`
    /// and version 1.1, fill the required headers (present, and carrying
    /// the canonical values where fixed), and keep the rest as other
    /// headers. Returns how many bytes the head took. `NotEnoughData` asks
    /// the caller to read more; nothing is changed on any error.
    pub fn decode(&mut self, buf: &[u8]) -> (r: Result<usize, HandshakeError>)
        ensures
            decode_request_post(*old(self), *final(self), buf@, r),
    {
        let p = parse_http_request(buf, self.max_headers);
        self.absorb_parsed(p)
    }

    /// Take a request head apart as `decode` does, from the parser's
    /// outcome itself.
    pub fn absorb_parsed(&mut self, p: ReqParse) -> (r: Result<usize, HandshakeError>)
        ensures
            absorb_request_post(*old(self), *final(self), p@, r),
    {
        match p {
            ReqParse::Partial => Err(HandshakeError::NotEnoughData),
            ReqParse::Malformed(e) => Err(HandshakeError::HttpParse(e)),
            ReqParse::Complete { n, method, path, version, headers } => {
                if !eq_ignore_case(method.as_slice(), "GET".as_bytes()) {
                    return Err(HandshakeError::HttpMethod);
                }
                if version != 1 {
                    return Err(HandshakeError::HttpVersion);
                }
                let (host, upgrade, connection, sec_key, hdr_version, others) = req_classify(
                    &headers,
                );
                if host.len() == 0 {
                    return Err(HandshakeError::HttpHost);
                }
                if upgrade.len() == 0 {
                    return Err(HandshakeError::Upgrade);
                }
                if connection.len() == 0 {
                    return Err(HandshakeError::Connection);
                }
                if sec_key.len() == 0 {
                    return Err(HandshakeError::SecWebSocketKey);
                }
                if hdr_version.len() == 0 {
                    return Err(HandshakeError::SecWebSocketVersion);
                }
                if !eq_ignore_case(upgrade.as_slice(), "websocket".as_bytes()) {
                    return Err(HandshakeError::Upgrade);
                }
                if !eq_ignore_case(connection.as_slice(), "upgrade".as_bytes()) {
                    return Err(HandshakeError::Connection);
                }
                if !eq_ignore_case(hdr_version.as_slice(), "13".as_bytes()) {
                    return Err(HandshakeError::SecWebSocketVersion);
                }
                self.path = path;
                self.host = host;
                self.sec_key = sec_key;
                self.other_headers = others;
                Ok(n)
            },
        }
    }
}

/// These bytes parse as a complete, valid upgrade request for exactly this
/// path, host and key: method GET, version 1.1, the five required headers
/// present with their fixed values where fixed.
pub open spec fn spec_request_decodes(
    bytes: Seq<u8>,
    cap: nat,
    path: Seq<u8>,
    host: Seq<u8>,
    sec_key: Seq<u8>,
) -> bool {
    match http_request_parse(bytes, cap) {
        ReqParseSpec::Complete { n, method, path: p, version, headers } => {
            let c = spec_req_classify(headers, spec_req_slots_empty());
            &&& spec_eq_ignore_case(method, "GET".spec_bytes())
            &&& version == 1
            &&& spec_req_validate(c) is None
            &&& p == path
            &&& c.host == host
            &&& c.sec_key == sec_key
        },
        _ => false,
    }
}

/// How a decoded request relates to what the HTTP parser made of the bytes.
pub open spec fn decode_request_post(
    pre: Request,
    post: Request,
    buf: Seq<u8>,
    r: Result<usize, HandshakeError>,
) -> bool {
    absorb_request_post(pre, post, http_request_parse(buf, pre.max_headers as nat), r)
}

/// How taking a parsed request apart relates the outcome to the fields: a
/// partial head asks for more data; malformed bytes carry the parser's
/// diagnostic; a wrong method or version, a missing required header or a
/// wrong fixed value is the matching error; otherwise the fields are
/// filled from the request line and the classified headers.
pub open spec fn absorb_request_post(
    pre: Request,
    post: Request,
    p: ReqParseSpec,
    r: Result<usize, HandshakeError>,
) -> bool {
    &&& post.max_headers == pre.max_headers
    &&& match p {
        ReqParseSpec::Partial => r == Err::<usize, HandshakeError>(HandshakeError::NotEnoughData)
            && post == pre,
        ReqParseSpec::Malformed => (r matches Err(e) && e is HttpParse) && post == pre,
        ReqParseSpec::Complete { n, method, path, version, headers } => {
            let c = spec_req_classify(headers, spec_req_slots_empty());
            if !spec_eq_ignore_case(method, "GET".spec_bytes()) {
                r == Err::<usize, HandshakeError>(HandshakeError::HttpMethod) && post == pre
            } else if version != 1 {
                r == Err::<usize, HandshakeError>(HandshakeError::HttpVersion) && post == pre
            } else {
                match spec_req_validate(c) {
                    Some(e) => r == Err::<usize, HandshakeError>(e) && post == pre,
                    None => {
                        &&& r matches Ok(m) && m == n
                        &&& post.path@ == path
                        &&& post.host@ == c.host
                        &&& post.sec_key@ == c.sec_key
                        &&& headers_view(post.other_headers@) == c.others
                    },
                }
            }
        },
    }
}

/// Encode the request fields into the front of `buf`.
fn encode_request(
    path: &Vec<u8>,
    host: &Vec<u8>,
    sec_key: &Vec<u8>,
    others: &Vec<HttpHeader>,
    buf: &mut Vec<u8>,
) -> (r: Result<usize, HandshakeError>)
    ensures
        final(buf)@.len() == old(buf)@.len(),
        ({
            let enc = spec_encode_request(
                path@,
                host@,
                sec_key@,
                headers_view(others@),
            );
            match r {
                Ok(n) => {
                    &&& n == enc.len()
                    &&& n <= old(buf)@.len()
                    &&& final(buf)@ == enc + old(buf)@.skip(n as int)
                },
                Err(e) => {
                    &&& e == HandshakeError::NotEnoughCapacity
                    &&& old(buf)@.len() < enc.len()
                    &&& final(buf)@ == old(buf)@
                },
            }
        }),
{
    let ghost oall = headers_view(others@);
    let ghost enc = spec_encode_request(path@, host@, sec_key@, oall);
    proof {
        lemma_req_lit_lens();
        super::lemma_sep_lens();
    }
    let cap = buf.len();
    let lit_get: &str = "GET ";
    let lit_httpver: &str = " HTTP/1.1\r\n";
    let lit_host: &str = "host";
    let lit_upgrade: &str = "upgrade";
    let lit_websocket: &str = "websocket";
    let lit_connection: &str = "connection";
    let lit_key: &str = "sec-websocket-key";
    let lit_version: &str = "sec-websocket-version";
    let lit_13: &str = "13";
    let lit_crlf: &str = "\r\n";
    // fixed-part length: request line, the five required header lines, and
    // the final blank line
    let mut fixed: usize = lit_get.as_bytes().len() + lit_httpver.as_bytes().len()
        + lit_host.as_bytes().len() + lit_upgrade.as_bytes().len() * 2
        + lit_websocket.as_bytes().len() + lit_connection.as_bytes().len()
        + lit_key.as_bytes().len() + lit_version.as_bytes().len() + lit_13.as_bytes().len() + 5
        * 4 + lit_crlf.as_bytes().len();
    let total0 = match add_len(fixed, path.len()) {
        Some(t) => t,
        None => {
            return Err(HandshakeError::NotEnoughCapacity);
        },
    };
    let total1 = match add_len(total0, host.len()) {
        Some(t) => t,
        None => {
            return Err(HandshakeError::NotEnoughCapacity);
        },
    };
    let mut total = match add_len(total1, sec_key.len()) {
        Some(t) => t,
        None => {
            return Err(HandshakeError::NotEnoughCapacity);
        },
    };
    proof {
        assert(oall.skip(0) =~= oall);
        assert(enc.len() == total + spec_headers_bytes(oall).len());
    }
    let mut i: usize = 0;
    while i < others.len()
        invariant
            i <= others@.len(),
            oall == headers_view(others@),
            enc == spec_encode_request(path@, host@, sec_key@, oall),
            total + spec_headers_bytes(oall.skip(i as int)).len() == enc.len(),
            total <= usize::MAX,
            cap == old(buf)@.len(),
            cap <= usize::MAX,
            buf@ == old(buf)@,
        decreases others@.len() - i,
    {
        let h = &others[i];
        proof {
            super::lemma_sep_lens();
            assert(oall.skip(i as int)[0] == oall[i as int]);
            assert(oall.skip(i as int).skip(1) =~= oall.skip(i + 1));
            assert(spec_headers_bytes(oall.skip(i as int)) == spec_header_bytes(
                h.name@,
                h.value@,
            ) + spec_headers_bytes(oall.skip(i + 1)));
            assert(enc.len() == total + h.name@.len() + 2 + h.value@.len() + 2
                + spec_headers_bytes(oall.skip(i + 1)).len());
        }
        let t = match add_len(total, h.name.len()) {
            Some(t) => t,
            None => {
                proof {
                    assert(enc.len() > usize::MAX);
                    assert(old(buf)@.len() < enc.len());
                }
                return Err(HandshakeError::NotEnoughCapacity);
            },
        };
        let t = match add_len(t, h.value.len()) {
            Some(t) => t,
            None => {
                proof {
                    assert(enc.len() > usize::MAX);
                    assert(old(buf)@.len() < enc.len());
                }
                return Err(HandshakeError::NotEnoughCapacity);
            },
        };
        let t = match add_len(t, 4) {
            Some(t) => t,
            None => {
                proof {
                    assert(enc.len() > usize::MAX);
                    assert(old(buf)@.len() < enc.len());
                }
                return Err(HandshakeError::NotEnoughCapacity);
            },
        };
        total = t;
        i += 1;
    }
    proof {
        assert(oall.skip(others@.len() as int) =~= Seq::<HttpHeaderSpec>::empty());
        assert(total == enc.len());
    }
    if buf.len() < total {
        return Err(HandshakeError::NotEnoughCapacity);
    }
    let ghost orig = buf@;
    let mut w = Writer::new(buf);
    proof {
        assert(buf@.skip(0) =~= orig.skip(0));
    }
    emit(&mut w, buf, lit_get.as_bytes(), Ghost(orig));
    emit(&mut w, buf, path.as_slice(), Ghost(orig));
    emit(&mut w, buf, lit_httpver.as_bytes(), Ghost(orig));
    emit_header(&mut w, buf, lit_host.as_bytes(), host.as_slice(), Ghost(orig));
    emit_header(&mut w, buf, lit_upgrade.as_bytes(), lit_websocket.as_bytes(), Ghost(orig));
    emit_header(&mut w, buf, lit_connection.as_bytes(), lit_upgrade.as_bytes(), Ghost(orig));
    emit_header(&mut w, buf, lit_key.as_bytes(), sec_key.as_slice(), Ghost(orig));
    emit_header(&mut w, buf, lit_version.as_bytes(), lit_13.as_bytes(), Ghost(orig));
    proof {
        assert(buf@.subrange(0, w.pos as int) + spec_headers_bytes(oall.skip(0))
            + "\r\n".spec_bytes() =~= enc);
    }
    let mut j: usize = 0;
    while j < others.len()
        invariant
            j <= others@.len(),
            oall == headers_view(others@),
            enc == spec_encode_request(path@, host@, sec_key@, oall),
            w.cap == buf@.len() == orig.len(),
            buf@.skip(w.pos as int) == orig.skip(w.pos as int),
            w.pos + spec_headers_bytes(oall.skip(j as int)).len() + 2 == enc.len(),
            enc.len() <= orig.len(),
            buf@.subrange(0, w.pos as int) + spec_headers_bytes(oall.skip(j as int))
                + "\r\n".spec_bytes() == enc,
        decreases others@.len() - j,
    {
        let h = &others[j];
        let ghost prefix0 = buf@.subrange(0, w.pos as int);
        proof {
            assert(oall.skip(j as int)[0] == oall[j as int]);
            assert(oall.skip(j as int).skip(1) =~= oall.skip(j + 1));
            assert(spec_headers_bytes(oall.skip(j as int)) == spec_header_bytes(
                h.name@,
                h.value@,
            ) + spec_headers_bytes(oall.skip(j + 1)));
        }
        emit_header(&mut w, buf, h.name.as_slice(), h.value.as_slice(), Ghost(orig));
        proof {
            assert(buf@.subrange(0, w.pos as int) + spec_headers_bytes(oall.skip(j + 1))
                + "\r\n".spec_bytes() =~= enc);
        }
        j += 1;
    }
    proof {
        assert(oall.skip(others@.len() as int) =~= Seq::<HttpHeaderSpec>::empty());
    }
    emit(&mut w, buf, lit_crlf.as_bytes(), Ghost(orig));
    proof {
        assert(buf@.subrange(0, w.pos as int) =~= enc);
        assert(buf@ =~= enc + orig.skip(w.pos as int));
    }
    Ok(w.pos())
}

/// The literals of a request head, measured.
pub(crate) proof fn lemma_req_lit_lens()
    ensures
        "GET ".spec_bytes().len() == 4,
        " HTTP/1.1\r\n".spec_bytes().len() == 11,
        "host".spec_bytes().len() == 4,
        "upgrade".spec_bytes().len() == 7,
        "websocket".spec_bytes().len() == 9,
        "connection".spec_bytes().len() == 10,
        "sec-websocket-key".spec_bytes().len() == 17,
        "sec-websocket-version".spec_bytes().len() == 21,
        "13".spec_bytes().len() == 2,
        "\r\n".spec_bytes().len() == 2,
{
    reveal_strlit("GET ");
    reveal_strlit(" HTTP/1.1\r\n");
    reveal_strlit("host");
    reveal_strlit("upgrade");
    reveal_strlit("websocket");
    reveal_strlit("connection");
    reveal_strlit("sec-websocket-key");
    reveal_strlit("sec-websocket-version");
    reveal_strlit("13");
    reveal_strlit("\r\n");
    lit_ascii_len("GET ", 4);
    lit_ascii_len(" HTTP/1.1\r\n", 11);
    lit_ascii_len("host", 4);
    lit_ascii_len("upgrade", 7);
    lit_ascii_len("websocket", 9);
    lit_ascii_len("connection", 10);
    lit_ascii_len("sec-websocket-key", 17);
    lit_ascii_len("sec-websocket-version", 21);
    lit_ascii_len("13", 2);
    lit_ascii_len("\r\n", 2);
}

/// An ASCII literal's bytes are one per character.
pub(crate) proof fn lit_ascii_len(s: &str, n: int)
    requires
        vstd::string::is_ascii(s),
        s@.len() == n,
    ensures
        s.spec_bytes().len() == n,
{
    vstd::string::is_ascii_spec_bytes(s);
}


/// Classification saturates: once every required slot is filled, further
/// headers all land among the others, in order.
proof fn lemma_req_classify_saturated(hs: Seq<HttpHeaderSpec>, acc: ReqSlots)
    requires
        acc.host.len() > 0,
        acc.upgrade.len() > 0,
        acc.connection.len() > 0,
        acc.sec_key.len() > 0,
        acc.version.len() > 0,
    ensures
        spec_req_classify(hs, acc) == (ReqSlots { others: acc.others + hs, ..acc }),
    decreases hs.len(),
{
    if hs.len() == 0 {
        assert(acc.others + hs =~= acc.others);
    } else {
        let acc2 = spec_req_classify_step(acc, hs[0]);
        lemma_req_classify_saturated(hs.skip(1), acc2);
        assert(acc.others.push(hs[0]) + hs.skip(1) =~= acc.others + hs);
    }
}

/// Half of the handshake round trip that is this library's own: the header
/// lines the encoder emits classify back to exactly the fields they were
/// written from, with the other headers kept in order, and they validate.
pub proof fn lemma_classify_emitted_request(
    host: Seq<u8>,
    sec_key: Seq<u8>,
    others: Seq<HttpHeaderSpec>,
)
    requires
        host.len() > 0,
        sec_key.len() > 0,
    ensures
        ({
            let emitted = seq![
                HttpHeaderSpec { name: "host".spec_bytes(), value: host },
                HttpHeaderSpec {
                    name: "upgrade".spec_bytes(),
                    value: "websocket".spec_bytes(),
                },
                HttpHeaderSpec {
                    name: "connection".spec_bytes(),
                    value: "upgrade".spec_bytes(),
                },
                HttpHeaderSpec { name: "sec-websocket-key".spec_bytes(), value: sec_key },
                HttpHeaderSpec {
                    name: "sec-websocket-version".spec_bytes(),
                    value: "13".spec_bytes(),
                },
            ] + others;
            let c = spec_req_classify(emitted, spec_req_slots_empty());
            &&& c.host == host
            &&& c.upgrade == "websocket".spec_bytes()
            &&& c.connection == "upgrade".spec_bytes()
            &&& c.sec_key == sec_key
            &&& c.version == "13".spec_bytes()
            &&& c.others == others
            &&& spec_req_validate(c) is None
        }),
{
    lemma_req_lit_lens();
    let h0 = HttpHeaderSpec { name: "host".spec_bytes(), value: host };
    let h1 = HttpHeaderSpec { name: "upgrade".spec_bytes(), value: "websocket".spec_bytes() };
    let h2 = HttpHeaderSpec { name: "connection".spec_bytes(), value: "upgrade".spec_bytes() };
    let h3 = HttpHeaderSpec { name: "sec-websocket-key".spec_bytes(), value: sec_key };
    let h4 = HttpHeaderSpec {
        name: "sec-websocket-version".spec_bytes(),
        value: "13".spec_bytes(),
    };
    let emitted = seq![h0, h1, h2, h3, h4] + others;
    assert(emitted[0] == h0 && emitted[1] == h1 && emitted[2] == h2 && emitted[3] == h3
        && emitted[4] == h4);
    let a0 = spec_req_slots_empty();
    let a1 = spec_req_classify_step(a0, h0);
    let a2 = spec_req_classify_step(a1, h1);
    let a3 = spec_req_classify_step(a2, h2);
    let a4 = spec_req_classify_step(a3, h3);
    let a5 = spec_req_classify_step(a4, h4);
    assert(emitted.skip(1)[0] == h1 && emitted.skip(2)[0] == h2 && emitted.skip(3)[0] == h3
        && emitted.skip(4)[0] == h4);
    assert(emitted.skip(1).skip(1) =~= emitted.skip(2));
    assert(emitted.skip(2).skip(1) =~= emitted.skip(3));
    assert(emitted.skip(3).skip(1) =~= emitted.skip(4));
    assert(emitted.skip(4).skip(1) =~= emitted.skip(5));
    assert(emitted.skip(5) =~= others);
    assert(spec_eq_ignore_case("host".spec_bytes(), "host".spec_bytes()));
    assert(spec_eq_ignore_case("upgrade".spec_bytes(), "upgrade".spec_bytes()));
    assert(spec_eq_ignore_case("connection".spec_bytes(), "connection".spec_bytes()));
    assert(spec_eq_ignore_case(
        "sec-websocket-key".spec_bytes(),
        "sec-websocket-key".spec_bytes(),
    ));
    assert(spec_eq_ignore_case(
        "sec-websocket-version".spec_bytes(),
        "sec-websocket-version".spec_bytes(),
    ));
    assert(spec_eq_ignore_case("websocket".spec_bytes(), "websocket".spec_bytes()));
    assert(spec_eq_ignore_case("13".spec_bytes(), "13".spec_bytes()));
    assert(a1 == (ReqSlots { host, ..a0 }));
    assert(a2 == (ReqSlots { upgrade: "websocket".spec_bytes(), ..a1 }));
    assert(a3 == (ReqSlots { connection: "upgrade".spec_bytes(), ..a2 }));
    assert(a4 == (ReqSlots { sec_key, ..a3 }));
    assert(a5 == (ReqSlots { version: "13".spec_bytes(), ..a4 }));
    assert(spec_req_classify(emitted, a0) == spec_req_classify(emitted.skip(1), a1));
    assert(spec_req_classify(emitted.skip(1), a1) == spec_req_classify(emitted.skip(2), a2));
    assert(spec_req_classify(emitted.skip(2), a2) == spec_req_classify(emitted.skip(3), a3));
    assert(spec_req_classify(emitted.skip(3), a3) == spec_req_classify(emitted.skip(4), a4));
    assert(spec_req_classify(emitted.skip(4), a4) == spec_req_classify(emitted.skip(5), a5));
    lemma_req_classify_saturated(others, a5);
    assert(spec_req_classify(emitted.skip(5), a5) == spec_req_classify(others, a5));
    assert(a5.others + others =~= others);
}

} // verus!
