//! The server's reply: `HTTP/1.1 101 Switching Protocols` with the three
//! required headers, then any further headers, then a blank line.

use vstd::prelude::*;
use vstd::string::StringSliceAdditionalSpecFns;
use crate::error::HandshakeError;
use crate::store::Writer;
use super::{HttpHeader, HttpHeaderSpec, MAX_ALLOW_HEADERS};
use super::{add_len, emit, emit_header, eq_ignore_case, headers_view, spec_eq_ignore_case,
    spec_header_bytes, spec_headers_bytes};
use super::http::{RespParse, RespParseSpec, http_response_parse, parse_http_response};

verus! {

/// A server upgrade response: the accept token plus whatever other headers
/// were sent or are to be sent.
#[derive(Debug, Clone, PartialEq, Eq)]
pub struct Response {
    pub sec_accept: Vec<u8>,
    pub other_headers: Vec<HttpHeader>,
    pub max_headers: usize,
}

/// The three required header slots while classifying a parsed response;
/// a slot is filled by the first header of its name.
pub ghost struct RespSlots {
    pub upgrade: Seq<u8>,
    pub connection: Seq<u8>,
    pub sec_accept: Seq<u8>,
    pub others: Seq<HttpHeaderSpec>,
}

/// Empty slots: nothing matched yet.
pub open spec fn spec_resp_slots_empty() -> RespSlots {
    RespSlots {
        upgrade: Seq::empty(),
        connection: Seq::empty(),
        sec_accept: Seq::empty(),
        others: Seq::empty(),
    }
}

/// One classification step: the header fills the first required slot of
/// its name that is still empty, else joins the other headers.
pub open spec fn spec_resp_classify_step(acc: RespSlots, h: HttpHeaderSpec) -> RespSlots {
    if spec_eq_ignore_case(h.name, "upgrade".spec_bytes()) && acc.upgrade.len() == 0 {
        RespSlots { upgrade: h.value, ..acc }
    } else if spec_eq_ignore_case(h.name, "connection".spec_bytes()) && acc.connection.len()
        == 0 {
        RespSlots { connection: h.value, ..acc }
    } else if spec_eq_ignore_case(h.name, "sec-websocket-accept".spec_bytes())
        && acc.sec_accept.len() == 0 {
        RespSlots { sec_accept: h.value, ..acc }
    } else {
        RespSlots { others: acc.others.push(h), ..acc }
    }
}

/// Classify a run of parsed headers, front first.
pub open spec fn spec_resp_classify(hs: Seq<HttpHeaderSpec>, acc: RespSlots) -> RespSlots
    decreases hs.len(),
{
    if hs.len() == 0 {
        acc
    } else {
        spec_resp_classify(hs.skip(1), spec_resp_classify_step(acc, hs[0]))
    }
}

/// The response's validation verdict after classification: a missing
/// required header first (in the fixed order), then a wrong `upgrade` or
/// `connection` value, compared ignoring case.
pub open spec fn spec_resp_validate(c: RespSlots) -> Option<HandshakeError> {
    if c.upgrade.len() == 0 || c.connection.len() == 0 || c.sec_accept.len() == 0 {
        if c.upgrade.len() == 0 {
            Some(HandshakeError::Upgrade)
        } else if c.connection.len() == 0 {
            Some(HandshakeError::Connection)
        } else {
            Some(HandshakeError::SecWebSocketAccept)
        }
    } else if !spec_eq_ignore_case(c.upgrade, "websocket".spec_bytes()) {
        Some(HandshakeError::Upgrade)
    } else if !spec_eq_ignore_case(c.connection, "upgrade".spec_bytes()) {
        Some(HandshakeError::Connection)
    } else {
        None
    }
}

/// The wire bytes of a response with these fields.
pub open spec fn spec_encode_response(sec_accept: Seq<u8>, others: Seq<HttpHeaderSpec>) -> Seq<
    u8,
> {
    "HTTP/1.1 101 Switching Protocols\r\n".spec_bytes() + spec_header_bytes(
        "upgrade".spec_bytes(),
        "websocket".spec_bytes(),
    ) + spec_header_bytes("connection".spec_bytes(), "upgrade".spec_bytes()) + spec_header_bytes(
        "sec-websocket-accept".spec_bytes(),
        sec_accept,
    ) + spec_headers_bytes(others) + "\r\n".spec_bytes()
}

/// Classify parsed headers into the three required slots and the rest.
fn resp_classify(headers: &Vec<HttpHeader>) -> (r: (Vec<u8>, Vec<u8>, Vec<u8>, Vec<HttpHeader>))
    ensures
        ({
            let c = spec_resp_classify(headers_view(headers@), spec_resp_slots_empty());
            &&& r.0@ == c.upgrade
            &&& r.1@ == c.connection
            &&& r.2@ == c.sec_accept
            &&& headers_view(r.3@) == c.others
        }),
{
    let ghost all = headers_view(headers@);
    let mut upgrade: Vec<u8> = Vec::new();
    let mut connection: Vec<u8> = Vec::new();
    let mut sec_accept: Vec<u8> = Vec::new();
    let mut others: Vec<HttpHeader> = Vec::new();
    proof {
        assert(all.skip(0) =~= all);
        assert(headers_view(others@) =~= Seq::<HttpHeaderSpec>::empty());
    }
    let mut i: usize = 0;
    while i < headers.len()
        invariant
            i <= headers@.len(),
            all == headers_view(headers@),
            spec_resp_classify(all, spec_resp_slots_empty()) == spec_resp_classify(
                all.skip(i as int),
                RespSlots {
                    upgrade: upgrade@,
                    connection: connection@,
                    sec_accept: sec_accept@,
                    others: headers_view(others@),
                },
            ),
        decreases headers@.len() - i,
    {
        let h = &headers[i];
        let ghost acc = RespSlots {
            upgrade: upgrade@,
            connection: connection@,
            sec_accept: sec_accept@,
            others: headers_view(others@),
        };
        if eq_ignore_case(h.name.as_slice(), "upgrade".as_bytes()) && upgrade.len() == 0 {
            upgrade = vstd::slice::slice_to_vec(h.value.as_slice());
        } else if eq_ignore_case(h.name.as_slice(), "connection".as_bytes()) && connection.len()
            == 0 {
            connection = vstd::slice::slice_to_vec(h.value.as_slice());
        } else if eq_ignore_case(h.name.as_slice(), "sec-websocket-accept".as_bytes())
            && sec_accept.len() == 0 {
            sec_accept = vstd::slice::slice_to_vec(h.value.as_slice());
        } else {
            others.push(
                HttpHeader::new(
                    vstd::slice::slice_to_vec(h.name.as_slice()),
                    vstd::slice::slice_to_vec(h.value.as_slice()),
                ),
            );
        }
        proof {
            assert(all.skip(i as int)[0] == all[i as int]);
            assert(all.skip(i as int).skip(1) =~= all.skip(i + 1));
            assert(h@ == all[i as int]);
            assert(headers_view(others@) =~= spec_resp_classify_step(acc, all[i as int]).others
                || headers_view(others@) =~= acc.others);
        }
        i += 1;
    }
    proof {
        assert(all.skip(i as int) =~= Seq::<HttpHeaderSpec>::empty());
    }
    (upgrade, connection, sec_accept, others)
}

impl Response {
    /// A response carrying this accept token and no other headers, parsing
    /// at most [`MAX_ALLOW_HEADERS`] headers on decode.
    pub fn new(sec_accept: &[u8]) -> (r: Self)
        ensures
            r.sec_accept@ == sec_accept@,
            r.other_headers@.len() == 0,
            r.max_headers == MAX_ALLOW_HEADERS,
    {
        Response {
            sec_accept: vstd::slice::slice_to_vec(sec_accept),
            other_headers: Vec::new(),
            max_headers: MAX_ALLOW_HEADERS,
        }
    }

    /// A response like [`new`](Self::new) makes, with a custom limit on the
    /// number of headers parsed on decode.
    pub fn new_custom(sec_accept: &[u8], max_headers: usize) -> (r: Self)
        ensures
            r.sec_accept@ == sec_accept@,
            r.other_headers@.len() == 0,
            r.max_headers == max_headers,
    {
        Response {
            sec_accept: vstd::slice::slice_to_vec(sec_accept),
            other_headers: Vec::new(),
            max_headers,
        }
    }

    /// The wire bytes this response encodes to.
    pub open spec fn spec_encode(&self) -> Seq<u8> {
        spec_encode_response(self.sec_accept@, headers_view(self.other_headers@))
    }

    /// Encode into the front of `buf`, returning the count of written
    /// bytes; the required headers come first, in a fixed order, then the
    /// other headers. Fails, leaving the buffer as it was, when it is
    /// shorter than the encoded response.
    pub fn encode(&self, buf: &mut Vec<u8>) -> (r: Result<usize, HandshakeError>)
        ensures
            final(buf)@.len() == old(buf)@.len(),
            match r {
                Ok(n) => {
                    &&& n == self.spec_encode().len()
                    &&& n <= old(buf)@.len()
                    &&& final(buf)@ == self.spec_encode() + old(buf)@.skip(n as int)
                },
                Err(e) => {
                    &&& e == HandshakeError::NotEnoughCapacity
                    &&& old(buf)@.len() < self.spec_encode().len()
                    &&& final(buf)@ == old(buf)@
                },
            },
    {
        encode_response(&self.sec_accept, &self.other_headers, buf)
    }

    /// Decode from `buf`: parse an HTTP response head, require version 1.1
    /// and status 101, fill the required headers (present, and carrying the
    /// canonical values where fixed), and keep the rest as other headers.
    /// Returns how many bytes the head took. `NotEnoughData` asks the
    /// caller to read more; nothing is changed on any error.
    pub fn decode(&mut self, buf: &[u8]) -> (r: Result<usize, HandshakeError>)
        ensures
            decode_response_post(*old(self), *final(self), buf@, r),
    {
        let p = parse_http_response(buf, self.max_headers);
        self.absorb_parsed(p)
    }

    /// Take a response head apart as `decode` does, from the parser's
    /// outcome itself.
    pub fn absorb_parsed(&mut self, p: RespParse) -> (r: Result<usize, HandshakeError>)
        ensures
            absorb_response_post(*old(self), *final(self), p@, r),
    {
        match p {
            RespParse::Partial => Err(HandshakeError::NotEnoughData),
            RespParse::Malformed(e) => Err(HandshakeError::HttpParse(e)),
            RespParse::Complete { n, version, code, headers } => {
                if version != 1 {
                    return Err(HandshakeError::HttpVersion);
                }
                if code != 101 {
                    return Err(HandshakeError::HttpStatusCode);
                }
                let (upgrade, connection, sec_accept, others) = resp_classify(&headers);
                if upgrade.len() == 0 {
                    return Err(HandshakeError::Upgrade);
                }
                if connection.len() == 0 {
                    return Err(HandshakeError::Connection);
                }
                if sec_accept.len() == 0 {
                    return Err(HandshakeError::SecWebSocketAccept);
                }
                if !eq_ignore_case(upgrade.as_slice(), "websocket".as_bytes()) {
                    return Err(HandshakeError::Upgrade);
                }
                if !eq_ignore_case(connection.as_slice(), "upgrade".as_bytes()) {
                    return Err(HandshakeError::Connection);
                }
                self.sec_accept = sec_accept;
                self.other_headers = others;
                Ok(n)
            },
        }
    }
}

/// These bytes parse as a complete, valid switching-protocols response
/// carrying exactly this accept token: version 1.1, status 101, the three
/// required headers present with their fixed values where fixed.
pub open spec fn spec_response_decodes(bytes: Seq<u8>, cap: nat, sec_accept: Seq<u8>) -> bool {
    match http_response_parse(bytes, cap) {
        RespParseSpec::Complete { n, version, code, headers } => {
            let c = spec_resp_classify(headers, spec_resp_slots_empty());
            &&& version == 1
            &&& code == 101
            &&& spec_resp_validate(c) is None
            &&& c.sec_accept == sec_accept
        },
        _ => false,
    }
}

/// How a decoded response relates to what the HTTP parser made of the
/// bytes.
pub open spec fn decode_response_post(
    pre: Response,
    post: Response,
    buf: Seq<u8>,
    r: Result<usize, HandshakeError>,
) -> bool {
    absorb_response_post(pre, post, http_response_parse(buf, pre.max_headers as nat), r)
}

/// How taking a parsed response apart relates the outcome to the fields: a
/// partial head asks for more data; malformed bytes carry the parser's
/// diagnostic; a wrong version or status, a missing required header or a
/// wrong fixed value is the matching error; otherwise the fields are
/// filled from the classified headers.
pub open spec fn absorb_response_post(
    pre: Response,
    post: Response,
    p: RespParseSpec,
    r: Result<usize, HandshakeError>,
) -> bool {
    &&& post.max_headers == pre.max_headers
    &&& match p {
        RespParseSpec::Partial => r == Err::<usize, HandshakeError>(HandshakeError::NotEnoughData)
            && post == pre,
        RespParseSpec::Malformed => (r matches Err(e) && e is HttpParse) && post == pre,
        RespParseSpec::Complete { n, version, code, headers } => {
            let c = spec_resp_classify(headers, spec_resp_slots_empty());
            if version != 1 {
                r == Err::<usize, HandshakeError>(HandshakeError::HttpVersion) && post == pre
            } else if code != 101 {
                r == Err::<usize, HandshakeError>(HandshakeError::HttpStatusCode) && post == pre
            } else {
                match spec_resp_validate(c) {
                    Some(e) => r == Err::<usize, HandshakeError>(e) && post == pre,
                    None => {
                        &&& r matches Ok(m) && m == n
                        &&& post.sec_accept@ == c.sec_accept
                        &&& headers_view(post.other_headers@) == c.others
                    },
                }
            }
        },
    }
}

/// Encode the response fields into the front of `buf`.
fn encode_response(sec_accept: &Vec<u8>, others: &Vec<HttpHeader>, buf: &mut Vec<u8>) -> (r:
    Result<usize, HandshakeError>)
    ensures
        final(buf)@.len() == old(buf)@.len(),
        ({
            let enc = spec_encode_response(sec_accept@, headers_view(others@));
            match r {
                Ok(n) => {
                    &&& n == enc.len()
                    &&& n <= old(buf)@.len()
                    &&& final(buf)@ == enc + old(buf)@.skip(n as int)
                },
                Err(e) => {
                    &&& e == HandshakeError::NotEnoughCapacity
                    &&& old(buf)@.len() < enc.len()
                    &&& final(buf)@ == old(buf)@
                },
            }
        }),
{
    let ghost oall = headers_view(others@);
    let ghost enc = spec_encode_response(sec_accept@, oall);
    proof {
        lemma_resp_lit_lens();
        super::lemma_sep_lens();
    }
    let cap = buf.len();
    let lit_status: &str = "HTTP/1.1 101 Switching Protocols\r\n";
    let lit_upgrade: &str = "upgrade";
    let lit_websocket: &str = "websocket";
    let lit_connection: &str = "connection";
    let lit_accept: &str = "sec-websocket-accept";
    let lit_crlf: &str = "\r\n";
    // fixed-part length: status line, the three required header lines, and
    // the final blank line
    let fixed: usize = lit_status.as_bytes().len() + lit_upgrade.as_bytes().len() * 2
        + lit_websocket.as_bytes().len() + lit_connection.as_bytes().len()
        + lit_accept.as_bytes().len() + 3 * 4 + lit_crlf.as_bytes().len();
    let mut total = match add_len(fixed, sec_accept.len()) {
        Some(t) => t,
        None => {
            return Err(HandshakeError::NotEnoughCapacity);
        },
    };
    proof {
        assert(oall.skip(0) =~= oall);
        assert(enc.len() == total + spec_headers_bytes(oall).len());
    }
    let mut i: usize = 0;
    while i < others.len()
        invariant
            i <= others@.len(),
            oall == headers_view(others@),
            enc == spec_encode_response(sec_accept@, oall),
            total + spec_headers_bytes(oall.skip(i as int)).len() == enc.len(),
            total <= usize::MAX,
            cap == old(buf)@.len(),
            cap <= usize::MAX,
            buf@ == old(buf)@,
        decreases others@.len() - i,
    {
        let h = &others[i];
        proof {
            super::lemma_sep_lens();
            assert(oall.skip(i as int)[0] == oall[i as int]);
            assert(oall.skip(i as int).skip(1) =~= oall.skip(i + 1));
            assert(spec_headers_bytes(oall.skip(i as int)) == spec_header_bytes(
                h.name@,
                h.value@,
            ) + spec_headers_bytes(oall.skip(i + 1)));
            assert(enc.len() == total + h.name@.len() + 2 + h.value@.len() + 2
                + spec_headers_bytes(oall.skip(i + 1)).len());
        }
        let t = match add_len(total, h.name.len()) {
            Some(t) => t,
            None => {
                return Err(HandshakeError::NotEnoughCapacity);
            },
        };
        let t = match add_len(t, h.value.len()) {
            Some(t) => t,
            None => {
                return Err(HandshakeError::NotEnoughCapacity);
            },
        };
        let t = match add_len(t, 4) {
            Some(t) => t,
            None => {
                return Err(HandshakeError::NotEnoughCapacity);
            },
        };
        total = t;
        i += 1;
    }
    proof {
        assert(oall.skip(others@.len() as int) =~= Seq::<HttpHeaderSpec>::empty());
        assert(total == enc.len());
    }
    if buf.len() < total {
        return Err(HandshakeError::NotEnoughCapacity);
    }
    let ghost orig = buf@;
    let mut w = Writer::new(buf);
    proof {
        assert(buf@.skip(0) =~= orig.skip(0));
    }
    emit(&mut w, buf, lit_status.as_bytes(), Ghost(orig));
    emit_header(&mut w, buf, lit_upgrade.as_bytes(), lit_websocket.as_bytes(), Ghost(orig));
    emit_header(&mut w, buf, lit_connection.as_bytes(), lit_upgrade.as_bytes(), Ghost(orig));
    emit_header(&mut w, buf, lit_accept.as_bytes(), sec_accept.as_slice(), Ghost(orig));
    proof {
        assert(buf@.subrange(0, w.pos as int) + spec_headers_bytes(oall.skip(0))
            + "\r\n".spec_bytes() =~= enc);
    }
    let mut j: usize = 0;
    while j < others.len()
        invariant
            j <= others@.len(),
            oall == headers_view(others@),
            enc == spec_encode_response(sec_accept@, oall),
            w.cap == buf@.len() == orig.len(),
            buf@.skip(w.pos as int) == orig.skip(w.pos as int),
            w.pos + spec_headers_bytes(oall.skip(j as int)).len() + 2 == enc.len(),
            enc.len() <= orig.len(),
            buf@.subrange(0, w.pos as int) + spec_headers_bytes(oall.skip(j as int))
                + "\r\n".spec_bytes() == enc,
        decreases others@.len() - j,
    {
        let h = &others[j];
        proof {
            assert(oall.skip(j as int)[0] == oall[j as int]);
            assert(oall.skip(j as int).skip(1) =~= oall.skip(j + 1));
            assert(spec_headers_bytes(oall.skip(j as int)) == spec_header_bytes(
                h.name@,
                h.value@,
            ) + spec_headers_bytes(oall.skip(j + 1)));
        }
        emit_header(&mut w, buf, h.name.as_slice(), h.value.as_slice(), Ghost(orig));
        proof {
            assert(buf@.subrange(0, w.pos as int) + spec_headers_bytes(oall.skip(j + 1))
                + "\r\n".spec_bytes() =~= enc);
        }
        j += 1;
    }
    proof {
        assert(oall.skip(others@.len() as int) =~= Seq::<HttpHeaderSpec>::empty());
    }
    emit(&mut w, buf, lit_crlf.as_bytes(), Ghost(orig));
    proof {
        assert(buf@.subrange(0, w.pos as int) =~= enc);
        assert(buf@ =~= enc + orig.skip(w.pos as int));
    }
    Ok(w.pos())
}

/// The literals of a response head, measured.
pub(crate) proof fn lemma_resp_lit_lens()
    ensures
        "HTTP/1.1 101 Switching Protocols\r\n".spec_bytes().len() == 34,
        "upgrade".spec_bytes().len() == 7,
        "websocket".spec_bytes().len() == 9,
        "connection".spec_bytes().len() == 10,
        "sec-websocket-accept".spec_bytes().len() == 20,
        "\r\n".spec_bytes().len() == 2,
{
    reveal_strlit("HTTP/1.1 101 Switching Protocols\r\n");
    reveal_strlit("upgrade");
    reveal_strlit("websocket");
    reveal_strlit("connection");
    reveal_strlit("sec-websocket-accept");
    reveal_strlit("\r\n");
    super::request::lit_ascii_len("HTTP/1.1 101 Switching Protocols\r\n", 34);
    super::request::lit_ascii_len("upgrade", 7);
    super::request::lit_ascii_len("websocket", 9);
    super::request::lit_ascii_len("connection", 10);
    super::request::lit_ascii_len("sec-websocket-accept", 20);
    super::request::lit_ascii_len("\r\n", 2);
}


/// Classification saturates: once every required slot is filled, further
/// headers all land among the others, in order.
proof fn lemma_resp_classify_saturated(hs: Seq<HttpHeaderSpec>, acc: RespSlots)
    requires
        acc.upgrade.len() > 0,
        acc.connection.len() > 0,
        acc.sec_accept.len() > 0,
    ensures
        spec_resp_classify(hs, acc) == (RespSlots { others: acc.others + hs, ..acc }),
    decreases hs.len(),
{
    if hs.len() == 0 {
        assert(acc.others + hs =~= acc.others);
    } else {
        let acc2 = spec_resp_classify_step(acc, hs[0]);
        lemma_resp_classify_saturated(hs.skip(1), acc2);
        assert(acc.others.push(hs[0]) + hs.skip(1) =~= acc.others + hs);
    }
}

/// Half of the handshake round trip that is this library's own: the header
/// lines the encoder emits classify back to exactly the fields they were
/// written from, with the other headers kept in order, and they validate.
pub proof fn lemma_classify_emitted_response(sec_accept: Seq<u8>, others: Seq<HttpHeaderSpec>)
    requires
        sec_accept.len() > 0,
    ensures
        ({
            let emitted = seq![
                HttpHeaderSpec {
                    name: "upgrade".spec_bytes(),
                    value: "websocket".spec_bytes(),
                },
                HttpHeaderSpec {
                    name: "connection".spec_bytes(),
                    value: "upgrade".spec_bytes(),
                },
                HttpHeaderSpec { name: "sec-websocket-accept".spec_bytes(), value: sec_accept },
            ] + others;
            let c = spec_resp_classify(emitted, spec_resp_slots_empty());
            &&& c.upgrade == "websocket".spec_bytes()
            &&& c.connection == "upgrade".spec_bytes()
            &&& c.sec_accept == sec_accept
            &&& c.others == others
            &&& spec_resp_validate(c) is None
        }),
{
    lemma_resp_lit_lens();
    let h0 = HttpHeaderSpec { name: "upgrade".spec_bytes(), value: "websocket".spec_bytes() };
    let h1 = HttpHeaderSpec { name: "connection".spec_bytes(), value: "upgrade".spec_bytes() };
    let h2 = HttpHeaderSpec { name: "sec-websocket-accept".spec_bytes(), value: sec_accept };
    let emitted = seq![h0, h1, h2] + others;
    assert(emitted[0] == h0 && emitted[1] == h1 && emitted[2] == h2);
    let a0 = spec_resp_slots_empty();
    let a1 = spec_resp_classify_step(a0, h0);
    let a2 = spec_resp_classify_step(a1, h1);
    let a3 = spec_resp_classify_step(a2, h2);
    assert(emitted.skip(1)[0] == h1 && emitted.skip(2)[0] == h2);
    assert(emitted.skip(1).skip(1) =~= emitted.skip(2));
    assert(emitted.skip(2).skip(1) =~= emitted.skip(3));
    assert(emitted.skip(3) =~= others);
    assert(spec_eq_ignore_case("upgrade".spec_bytes(), "upgrade".spec_bytes()));
    assert(spec_eq_ignore_case("connection".spec_bytes(), "connection".spec_bytes()));
    assert(spec_eq_ignore_case(
        "sec-websocket-accept".spec_bytes(),
        "sec-websocket-accept".spec_bytes(),
    ));
    assert(spec_eq_ignore_case("websocket".spec_bytes(), "websocket".spec_bytes()));
    assert(a1 == (RespSlots { upgrade: "websocket".spec_bytes(), ..a0 }));
    assert(a2 == (RespSlots { connection: "upgrade".spec_bytes(), ..a1 }));
    assert(a3 == (RespSlots { sec_accept, ..a2 }));
    assert(spec_resp_classify(emitted, a0) == spec_resp_classify(emitted.skip(1), a1));
    assert(spec_resp_classify(emitted.skip(1), a1) == spec_resp_classify(emitted.skip(2), a2));
    assert(spec_resp_classify(emitted.skip(2), a2) == spec_resp_classify(emitted.skip(3), a3));
    lemma_resp_classify_saturated(others, a3);
    assert(spec_resp_classify(emitted.skip(3), a3) == spec_resp_classify(others, a3));
    assert(a3.others + others =~= others);
}

} // verus!
