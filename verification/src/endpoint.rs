//! Client and server endpoints: one handshake exchange over a transport,
//! yielding a ready stream.

use vstd::prelude::*;
use vstd::string::StringSliceAdditionalSpecFns;
use crate::error::{HandshakeError, WsError};
use crate::handshake::headers_view;
use crate::handshake::key::{base64_of, sha1_of, spec_guid};
use crate::handshake::request::spec_encode_request;
use crate::handshake::response::spec_encode_response;
use crate::handshake::{Request, Response, derive_accept_key, new_sec_key};
use crate::handshake::request::decode_request_post;
use crate::handshake::response::decode_response_post;
use crate::role::{ClientRole, RoleHelper, ServerRole};
use crate::stream::{Direct, Stream};
use crate::transport::Transport;

verus! {

/// A completed client handshake, seen on the transport: the wire grew by
/// exactly one upgrade request for this path and host under a 24-character
/// key, and the first `off` inbox bytes decoded as a valid
/// switching-protocols response whose accept token derives from that key.
pub open spec fn spec_client_handshake(
    pre_wire: Seq<u8>,
    pre_inbox: Seq<u8>,
    post_wire: Seq<u8>,
    post_inbox: Seq<u8>,
    path: Seq<u8>,
    host: Seq<u8>,
    key: Seq<u8>,
    off: int,
) -> bool {
    &&& key.len() == 24
    &&& post_wire == pre_wire + spec_encode_request(path, host, key, Seq::empty())
    &&& 0 <= off <= pre_inbox.len()
    &&& post_inbox == pre_inbox.skip(off)
    &&& crate::handshake::response::spec_response_decodes(
        pre_inbox.take(off),
        crate::handshake::MAX_ALLOW_HEADERS as nat,
        base64_of(sha1_of(key + spec_guid())),
    )
}

/// A completed server handshake, seen on the transport: the first `off`
/// inbox bytes decoded as a valid upgrade request for this path and host
/// carrying `key`, and the wire grew by exactly one switching-protocols
/// response whose accept token derives from that key.
pub open spec fn spec_server_handshake(
    pre_wire: Seq<u8>,
    pre_inbox: Seq<u8>,
    post_wire: Seq<u8>,
    post_inbox: Seq<u8>,
    path: Seq<u8>,
    host: Seq<u8>,
    key: Seq<u8>,
    off: int,
) -> bool {
    &&& 0 <= off <= pre_inbox.len()
    &&& post_inbox == pre_inbox.skip(off)
    &&& crate::handshake::request::spec_request_decodes(
        pre_inbox.take(off),
        crate::handshake::MAX_ALLOW_HEADERS as nat,
        path,
        host,
        key,
    )
    &&& post_wire == pre_wire + spec_encode_response(
        base64_of(sha1_of(key + spec_guid())),
        Seq::empty(),
    )
}

/// Client or server endpoint, a facade over one transport.
pub struct Endpoint<IO, Role> {
    pub io_marker: core::marker::PhantomData<IO>,
    pub role_marker: core::marker::PhantomData<Role>,
}

/// Two byte strings, compared byte for byte.
pub fn bytes_eq(a: &[u8], b: &[u8]) -> (r: bool)
    ensures
        r == (a@ == b@),
{
    if a.len() != b.len() {
        proof {
            assert(a@.len() != b@.len());
        }
        return false;
    }
    let n = a.len();
    let mut i: usize = 0;
    while i < n
        invariant
            i <= n,
            n == a@.len() == b@.len(),
            forall|j: int| 0 <= j < i ==> a@[j] == b@[j],
        decreases n - i,
    {
        if *vstd::slice::slice_index_get(a, i) != *vstd::slice::slice_index_get(b, i) {
            return false;
        }
        i += 1;
    }
    proof {
        assert(a@ =~= b@);
    }
    true
}

/// Drain `buf[..total]` to the transport, looping while bytes remain. Fails
/// with `NotEnoughCapacity` if the transport stops accepting bytes.
fn drain<IO: Transport>(io: &mut IO, buf: &Vec<u8>, total: usize) -> (r: Result<
    usize,
    WsError,
>)
    requires
        total <= buf@.len(),
    ensures
        final(io).inbox() == old(io).inbox(),
        match r {
            Ok(n) => n == total && final(io).wire() == old(io).wire() + buf@.subrange(
                0,
                total as int,
            ),
            Err(e) => {
                let sent_n = final(io).wire().len() - old(io).wire().len();
                &&& e == WsError::Handshake(HandshakeError::NotEnoughCapacity)
                &&& sent_n < total
                &&& final(io).wire() == old(io).wire() + buf@.subrange(0, total as int).take(
                    sent_n as int,
                )
            },
        },
{
    let empty: Vec<u8> = Vec::new();
    let ghost sent = buf@.subrange(0, total as int);
    let mut offset: usize = 0;
    proof {
        assert(old(io).wire() + sent.take(0) =~= old(io).wire());
    }
    while offset < total
        invariant
            offset <= total <= buf@.len(),
            sent == buf@.subrange(0, total as int),
            empty@.len() == 0,
            io.inbox() == old(io).inbox(),
            io.wire() == old(io).wire() + sent.take(offset as int),
        decreases total - offset,
    {
        let w = io.write(empty.as_slice(), buf.as_slice(), offset, total);
        if w == 0 {
            proof {
                assert((empty@ + buf@.subrange(offset as int, total as int)).take(0int)
                    =~= Seq::<u8>::empty());
                assert(io.wire() =~= old(io).wire() + sent.take(offset as int));
            }
            return Err(WsError::Handshake(HandshakeError::NotEnoughCapacity));
        }
        proof {
            assert((empty@ + buf@.subrange(offset as int, total as int)).take(w as int)
                =~= sent.subrange(offset as int, offset + w));
            assert(old(io).wire() + sent.take(offset as int) + sent.subrange(
                offset as int,
                offset + w,
            ) =~= old(io).wire() + sent.take(offset + w));
        }
        offset = offset + w;
    }
    proof {
        assert(sent.take(total as int) =~= sent);
    }
    Ok(total)
}

impl<IO: Transport, Role: ClientRole> Endpoint<IO, Role> {
    /// Encode the upgrade request into `buf` and send it whole; returns how
    /// many bytes went out. Fails if the buffer is too short for the
    /// request or the transport stops accepting bytes.
    #[verifier::rlimit(100)]
    pub fn send_request_sync(io: &mut IO, buf: &mut Vec<u8>, request: &Request) -> (r: Result<
        usize,
        WsError,
    >)
        ensures
            final(io).inbox() == old(io).inbox(),
            final(buf)@.len() == old(buf)@.len(),
            match r {
                Ok(n) => n == request.spec_encode().len() && final(io).wire() == old(io).wire()
                    + request.spec_encode(),
                Err(e) => {
                    let sent_n = final(io).wire().len() - old(io).wire().len();
                    &&& e == WsError::Handshake(HandshakeError::NotEnoughCapacity)
                    &&& sent_n < request.spec_encode().len() || sent_n == 0
                    &&& final(io).wire() == old(io).wire() + request.spec_encode().take(
                        sent_n as int,
                    )
                    &&& old(buf)@.len() < request.spec_encode().len() ==> final(io).wire() == old(
                        io,
                    ).wire()
                },
            },
    {
        let n = match request.encode(buf) {
            Ok(n) => n,
            Err(e) => {
                proof {
                    assert(request.spec_encode().take(0int) =~= Seq::<u8>::empty());
                    assert(io.wire() =~= io.wire() + request.spec_encode().take(0int));
                }
                return Err(WsError::Handshake(e));
            },
        };
        proof {
            assert(buf@.subrange(0, n as int) =~= request.spec_encode());
        }
        let r = drain(io, buf, n);
        proof {
            if r is Err {
                let sent_n = io.wire().len() - old(io).wire().len();
                assert(sent_n < n);
                assert(io.wire() == old(io).wire() + buf@.subrange(0, n as int).take(
                    sent_n as int,
                ));
                assert(buf@.subrange(0, n as int).take(sent_n as int) == request.spec_encode().take(
                    sent_n as int,
                ));
                assert(io.wire() == old(io).wire() + request.spec_encode().take(sent_n as int));
            }
        }
        r
    }

    /// Read from the transport into `buf` at a growing offset until a whole
    /// response head is there, decode it, and return how many bytes were
    /// read. Fails with `NotEnoughData` at end of stream and with
    /// `NotEnoughCapacity` when the buffer fills first.
    pub fn recv_response_sync(io: &mut IO, buf: &mut Vec<u8>, response: &mut Response) -> (r:
        Result<usize, WsError>)
        ensures
            final(io).wire() == old(io).wire(),
            final(buf)@.len() == old(buf)@.len(),
            final(response).max_headers == old(response).max_headers,
            ({
                let consumed = old(io).inbox().len() - final(io).inbox().len();
                &&& final(io).inbox() == old(io).inbox().skip(consumed as int)
                &&& consumed <= final(buf)@.len()
                &&& final(buf)@.subrange(0, consumed as int) == old(io).inbox().take(
                    consumed as int,
                )
            }),
            match r {
                Ok(off) => {
                    &&& off <= final(buf)@.len()
                    &&& off <= old(io).inbox().len()
                    &&& final(buf)@.subrange(0, off as int) == old(io).inbox().take(off as int)
                    &&& final(io).inbox() == old(io).inbox().skip(off as int)
                    &&& exists|m: usize|
                        decode_response_post(
                            *old(response),
                            *final(response),
                            final(buf)@.subrange(0, off as int),
                            Ok(m),
                        )
                },
                Err(e) => {
                    let consumed = old(io).inbox().len() - final(io).inbox().len();
                    &&& e is Handshake
                    &&& e == WsError::Handshake(HandshakeError::NotEnoughData) ==> final(
                        io
                    ).inbox().len() == 0
                    &&& e == WsError::Handshake(HandshakeError::NotEnoughCapacity) ==> consumed
                        == final(buf)@.len()
                    &&& (e != WsError::Handshake(HandshakeError::NotEnoughData) && e
                        != WsError::Handshake(HandshakeError::NotEnoughCapacity)) ==> (
                    e matches WsError::Handshake(inner) && decode_response_post(
                        *old(response),
                        *final(response),
                        final(buf)@.subrange(0, consumed as int),
                        Err(inner),
                    ))
                },
            },
    {
        let total = buf.len();
        let mut offset: usize = 0;
        proof {
            assert(old(io).inbox().skip(0) =~= old(io).inbox());
            assert(buf@.subrange(0, 0) =~= old(io).inbox().take(0));
        }
        while offset < total
            invariant
                offset <= total == buf@.len(),
                offset <= old(io).inbox().len(),
                io.wire() == old(io).wire(),
                io.inbox() == old(io).inbox().skip(offset as int),
                buf@.len() == old(buf)@.len(),
                buf@.subrange(0, offset as int) == old(io).inbox().take(offset as int),
                *response == *old(response),
            decreases total - offset,
        {
            let ghost inbox_pre = io.inbox();
            let n = io.read(buf, offset, total);
            if n == 0 {
                return Err(WsError::Handshake(HandshakeError::NotEnoughData));
            }
            proof {
                assert(buf@.subrange(0, offset + n) =~= old(io).inbox().take(offset + n)) by {
                    assert(buf@.subrange(offset as int, offset + n) =~= inbox_pre.take(n as int));
                    assert forall|j: int| 0 <= j < offset + n implies #[trigger] buf@[j] == old(
                        io,
                    ).inbox()[j] by {
                        if j < offset {
                            assert(buf@.subrange(0, offset as int)[j] == old(io).inbox().take(
                                offset as int,
                            )[j]);
                        } else {
                            assert(buf@.subrange(offset as int, offset + n)[j - offset]
                                == inbox_pre.take(n as int)[j - offset]);
                            assert(inbox_pre[j - offset] == old(io).inbox().skip(
                                offset as int,
                            )[j - offset]);
                        }
                    }
                }
                assert(io.inbox() =~= old(io).inbox().skip(offset + n));
            }
            offset = offset + n;
            let head = vstd::slice::slice_subrange(buf.as_slice(), 0, offset);
            let ghost pre_resp = *response;
            match response.decode(head) {
                Ok(m) => {
                    proof {
                        assert(decode_response_post(
                            pre_resp,
                            *response,
                            buf@.subrange(0, offset as int),
                            Ok(m),
                        ));
                    }
                    return Ok(offset);
                },
                Err(e) => {
                    match e {
                        HandshakeError::NotEnoughData => {
                            proof {
                                assert(*response == pre_resp);
                            }
                        },
                        e => {
                            return Err(WsError::Handshake(e));
                        },
                    }
                },
            }
        }
        Err(WsError::Handshake(HandshakeError::NotEnoughCapacity))
    }

    /// Perform the whole client handshake: send an upgrade request with a
    /// fresh key, receive and check the response (its accept token must be
    /// derived from the key), and wrap the transport in a fresh stream. On
    /// success, exactly one upgrade request for this host and path, under
    /// some 24-character key, went out on the wire, and the consumed inbox
    /// prefix decoded as a valid switching-protocols response whose accept
    /// token is the derivation of that same key. On failure the transport
    /// is dropped, closing the connection.
    #[verifier::rlimit(100)]
    pub fn connect_sync(io: IO, buf: &mut Vec<u8>, host: &str, path: &str) -> (r: Result<
        Stream<IO, Role, Direct>,
        WsError,
    >)
        ensures
            r matches Ok(stream) ==> {
                &&& stream.wf()
                &&& stream.read_state is ReadHead
                &&& stream.write_state is WriteHead
                &&& exists|key: Seq<u8>, off: int|
                    spec_client_handshake(
                        io.wire(),
                        io.inbox(),
                        stream.io.wire(),
                        stream.io.inbox(),
                        path.spec_bytes(),
                        host.spec_bytes(),
                        key,
                        off,
                    )
            },
            r matches Err(e) ==> e is Handshake,
    {
        let mut io = io;
        let ghost wire0 = io.wire();
        let ghost inbox0 = io.inbox();
        let empty: Vec<u8> = Vec::new();
        let sec_key = new_sec_key();
        let sec_accept = derive_accept_key(sec_key.as_slice());
        let request = Request::new(path.as_bytes(), host.as_bytes(), sec_key.as_slice());
        proof {
            assert(headers_view(request.other_headers@) =~= Seq::<
                crate::handshake::HttpHeaderSpec,
            >::empty());
        }
        match Self::send_request_sync(&mut io, buf, &request) {
            Ok(_) => {},
            Err(e) => {
                return Err(e);
            },
        }
        let mut response = Response::new(empty.as_slice());
        let ghost resp0 = response;
        let off = match Self::recv_response_sync(&mut io, buf, &mut response) {
            Ok(off) => off,
            Err(e) => {
                return Err(e);
            },
        };
        if !bytes_eq(response.sec_accept.as_slice(), sec_accept.as_slice()) {
            return Err(WsError::Handshake(HandshakeError::SecWebSocketAccept));
        }
        proof {
            assert(io.wire() == wire0 + spec_encode_request(
                path.spec_bytes(),
                host.spec_bytes(),
                sec_key@,
                Seq::empty(),
            ));
            let m = choose|m: usize|
                decode_response_post(resp0, response, buf@.subrange(0, off as int), Ok(m));
            assert(crate::handshake::response::spec_response_decodes(
                inbox0.take(off as int),
                crate::handshake::MAX_ALLOW_HEADERS as nat,
                base64_of(sha1_of(sec_key@ + spec_guid())),
            )) by {
                assert(buf@.subrange(0, off as int) == inbox0.take(off as int));
                assert(decode_response_post(resp0, response, inbox0.take(off as int), Ok(m)));
            }
            assert(io.inbox() == inbox0.skip(off as int));
            assert(spec_client_handshake(
                wire0,
                inbox0,
                io.wire(),
                io.inbox(),
                path.spec_bytes(),
                host.spec_bytes(),
                sec_key@,
                off as int,
            ));
        }
        Ok(Stream::new(io, Role::new()))
    }
}

impl<IO: Transport, Role: ServerRole> Endpoint<IO, Role> {
    /// Encode the upgrade response into `buf` and send it whole; returns
    /// how many bytes went out. Fails if the buffer is too short for the
    /// response or the transport stops accepting bytes.
    #[verifier::rlimit(100)]
    pub fn send_response(io: &mut IO, buf: &mut Vec<u8>, response: &Response) -> (r: Result<
        usize,
        WsError,
    >)
        ensures
            final(io).inbox() == old(io).inbox(),
            final(buf)@.len() == old(buf)@.len(),
            match r {
                Ok(n) => n == response.spec_encode().len() && final(io).wire() == old(io).wire()
                    + response.spec_encode(),
                Err(e) => {
                    let sent_n = final(io).wire().len() - old(io).wire().len();
                    &&& e == WsError::Handshake(HandshakeError::NotEnoughCapacity)
                    &&& sent_n < response.spec_encode().len() || sent_n == 0
                    &&& final(io).wire() == old(io).wire() + response.spec_encode().take(
                        sent_n as int,
                    )
                    &&& old(buf)@.len() < response.spec_encode().len() ==> final(io).wire() == old(
                        io,
                    ).wire()
                },
            },
    {
        let n = match response.encode(buf) {
            Ok(n) => n,
            Err(e) => {
                proof {
                    assert(response.spec_encode().take(0int) =~= Seq::<u8>::empty());
                    assert(io.wire() =~= io.wire() + response.spec_encode().take(0int));
                }
                return Err(WsError::Handshake(e));
            },
        };
        proof {
            assert(buf@.subrange(0, n as int) =~= response.spec_encode());
        }
        let r = drain(io, buf, n);
        proof {
            if r is Err {
                let sent_n = io.wire().len() - old(io).wire().len();
                assert(buf@.subrange(0, n as int).take(sent_n as int)
                    == response.spec_encode().take(sent_n as int));
                assert(io.wire() == old(io).wire() + response.spec_encode().take(sent_n as int));
            }
        }
        r
    }

    /// Read from the transport into `buf` at a growing offset until a whole
    /// request head is there, decode it, and return how many bytes were
    /// read. Fails with `NotEnoughData` at end of stream and with
    /// `NotEnoughCapacity` when the buffer fills first.
    pub fn recv_request(io: &mut IO, buf: &mut Vec<u8>, request: &mut Request) -> (r: Result<
        usize,
        WsError,
    >)
        ensures
            final(io).wire() == old(io).wire(),
            final(buf)@.len() == old(buf)@.len(),
            final(request).max_headers == old(request).max_headers,
            ({
                let consumed = old(io).inbox().len() - final(io).inbox().len();
                &&& final(io).inbox() == old(io).inbox().skip(consumed as int)
                &&& consumed <= final(buf)@.len()
                &&& final(buf)@.subrange(0, consumed as int) == old(io).inbox().take(
                    consumed as int,
                )
            }),
            match r {
                Ok(off) => {
                    &&& off <= final(buf)@.len()
                    &&& off <= old(io).inbox().len()
                    &&& final(buf)@.subrange(0, off as int) == old(io).inbox().take(off as int)
                    &&& final(io).inbox() == old(io).inbox().skip(off as int)
                    &&& exists|m: usize|
                        decode_request_post(
                            *old(request),
                            *final(request),
                            final(buf)@.subrange(0, off as int),
                            Ok(m),
                        )
                },
                Err(e) => {
                    let consumed = old(io).inbox().len() - final(io).inbox().len();
                    &&& e is Handshake
                    &&& e == WsError::Handshake(HandshakeError::NotEnoughData) ==> final(
                        io
                    ).inbox().len() == 0
                    &&& e == WsError::Handshake(HandshakeError::NotEnoughCapacity) ==> consumed
                        == final(buf)@.len()
                    &&& (e != WsError::Handshake(HandshakeError::NotEnoughData) && e
                        != WsError::Handshake(HandshakeError::NotEnoughCapacity)) ==> (
                    e matches WsError::Handshake(inner) && decode_request_post(
                        *old(request),
                        *final(request),
                        final(buf)@.subrange(0, consumed as int),
                        Err(inner),
                    ))
                },
            },
    {
        let total = buf.len();
        let mut offset: usize = 0;
        proof {
            assert(old(io).inbox().skip(0) =~= old(io).inbox());
            assert(buf@.subrange(0, 0) =~= old(io).inbox().take(0));
        }
        while offset < total
            invariant
                offset <= total == buf@.len(),
                offset <= old(io).inbox().len(),
                io.wire() == old(io).wire(),
                io.inbox() == old(io).inbox().skip(offset as int),
                buf@.len() == old(buf)@.len(),
                buf@.subrange(0, offset as int) == old(io).inbox().take(offset as int),
                *request == *old(request),
            decreases total - offset,
        {
            let ghost inbox_pre = io.inbox();
            let n = io.read(buf, offset, total);
            if n == 0 {
                return Err(WsError::Handshake(HandshakeError::NotEnoughData));
            }
            proof {
                assert(buf@.subrange(0, offset + n) =~= old(io).inbox().take(offset + n)) by {
                    assert(buf@.subrange(offset as int, offset + n) =~= inbox_pre.take(n as int));
                    assert forall|j: int| 0 <= j < offset + n implies #[trigger] buf@[j] == old(
                        io,
                    ).inbox()[j] by {
                        if j < offset {
                            assert(buf@.subrange(0, offset as int)[j] == old(io).inbox().take(
                                offset as int,
                            )[j]);
                        } else {
                            assert(buf@.subrange(offset as int, offset + n)[j - offset]
                                == inbox_pre.take(n as int)[j - offset]);
                            assert(inbox_pre[j - offset] == old(io).inbox().skip(
                                offset as int,
                            )[j - offset]);
                        }
                    }
                }
                assert(io.inbox() =~= old(io).inbox().skip(offset + n));
            }
            offset = offset + n;
            let head = vstd::slice::slice_subrange(buf.as_slice(), 0, offset);
            let ghost pre_req = *request;
            match request.decode(head) {
                Ok(m) => {
                    proof {
                        assert(decode_request_post(
                            pre_req,
                            *request,
                            buf@.subrange(0, offset as int),
                            Ok(m),
                        ));
                    }
                    return Ok(offset);
                },
                Err(e) => {
                    match e {
                        HandshakeError::NotEnoughData => {
                            proof {
                                assert(*request == pre_req);
                            }
                        },
                        e => {
                            return Err(WsError::Handshake(e));
                        },
                    }
                },
            }
        }
        Err(WsError::Handshake(HandshakeError::NotEnoughCapacity))
    }

    /// Perform the whole server handshake: receive and check the upgrade
    /// request (its host and path must match), send the response with the
    /// derived accept token, and wrap the transport in a fresh stream. On
    /// success, the consumed inbox prefix decoded as a valid upgrade
    /// request for exactly this host and path under some key, and exactly
    /// one switching-protocols response whose accept token derives from
    /// that same key went out on the wire. A host or path mismatch error
    /// comes only off a decodable request whose field differs. On failure
    /// the transport is dropped, closing the connection.
    #[verifier::rlimit(100)]
    pub fn accept(io: IO, buf: &mut Vec<u8>, host: &str, path: &str) -> (r: Result<
        Stream<IO, Role, Direct>,
        WsError,
    >)
        ensures
            r matches Ok(stream) ==> {
                &&& stream.wf()
                &&& stream.read_state is ReadHead
                &&& stream.write_state is WriteHead
                &&& exists|key: Seq<u8>, off: int|
                    spec_server_handshake(
                        io.wire(),
                        io.inbox(),
                        stream.io.wire(),
                        stream.io.inbox(),
                        path.spec_bytes(),
                        host.spec_bytes(),
                        key,
                        off,
                    )
            },
            r matches Err(e) ==> e is Handshake,
            r == Err::<Stream<IO, Role, Direct>, WsError>(
                WsError::Handshake(HandshakeError::HostMismatch),
            ) ==> exists|off: int, p: Seq<u8>, h: Seq<u8>, k: Seq<u8>|
                {
                    &&& 0 <= off <= io.inbox().len()
                    &&& crate::handshake::request::spec_request_decodes(
                        io.inbox().take(off),
                        crate::handshake::MAX_ALLOW_HEADERS as nat,
                        p,
                        h,
                        k,
                    )
                    &&& h != host.spec_bytes()
                },
            r == Err::<Stream<IO, Role, Direct>, WsError>(
                WsError::Handshake(HandshakeError::PathMismatch),
            ) ==> exists|off: int, p: Seq<u8>, h: Seq<u8>, k: Seq<u8>|
                {
                    &&& 0 <= off <= io.inbox().len()
                    &&& crate::handshake::request::spec_request_decodes(
                        io.inbox().take(off),
                        crate::handshake::MAX_ALLOW_HEADERS as nat,
                        p,
                        h,
                        k,
                    )
                    &&& h == host.spec_bytes()
                    &&& p != path.spec_bytes()
                },
    {
        let ghost wire0 = io.wire();
        let ghost inbox0 = io.inbox();
        let mut io = io;
        let empty: Vec<u8> = Vec::new();
        let mut request = Request::new(empty.as_slice(), empty.as_slice(), empty.as_slice());
        let ghost req0 = request;
        let offset = match Self::recv_request(&mut io, buf, &mut request) {
            Ok(off) => off,
            Err(e) => {
                return Err(e);
            },
        };
        proof {
            let m = choose|m: usize|
                decode_request_post(req0, request, buf@.subrange(0, offset as int), Ok(m));
            assert(buf@.subrange(0, offset as int) == inbox0.take(offset as int));
            assert(crate::handshake::request::spec_request_decodes(
                inbox0.take(offset as int),
                crate::handshake::MAX_ALLOW_HEADERS as nat,
                request.path@,
                request.host@,
                request.sec_key@,
            ));
        }
        if !bytes_eq(request.host.as_slice(), host.as_bytes()) {
            return Err(WsError::Handshake(HandshakeError::HostMismatch));
        }
        if !bytes_eq(request.path.as_slice(), path.as_bytes()) {
            return Err(WsError::Handshake(HandshakeError::PathMismatch));
        }
        if request.sec_key.len() > usize::MAX - 36 {
            return Err(WsError::Handshake(HandshakeError::NotEnoughCapacity));
        }
        let sec_accept = derive_accept_key(request.sec_key.as_slice());
        let response = Response::new(sec_accept.as_slice());
        proof {
            assert(headers_view(response.other_headers@) =~= Seq::<
                crate::handshake::HttpHeaderSpec,
            >::empty());
        }
        match Self::send_response(&mut io, buf, &response) {
            Ok(_) => {},
            Err(e) => {
                return Err(e);
            },
        }
        proof {
            assert(io.wire() == wire0 + spec_encode_response(
                base64_of(sha1_of(request.sec_key@ + spec_guid())),
                Seq::empty(),
            ));
            assert(spec_server_handshake(
                wire0,
                inbox0,
                io.wire(),
                io.inbox(),
                path.spec_bytes(),
                host.spec_bytes(),
                request.sec_key@,
                offset as int,
            ));
        }
        Ok(Stream::new(io, Role::new()))
    }
}

} // verus!
