use std::cell::RefCell;
use std::rc::Rc;

use lightws::endpoint::Endpoint;
use lightws::error::{HandshakeError, WsError};
use lightws::handshake::{Request, Response};
use lightws::role::{Client, Server};
use lightws::stream::Stream;
use lightws::transport::{ChunkTransport, Transport};

pub const REQUEST: &[u8] = b"\
GET /ws HTTP/1.1\r\n\
host: www.example.com\r\n\
upgrade: websocket\r\n\
connection: upgrade\r\n\
sec-websocket-key: dGhlIHNhbXBsZSBub25jZQ==\r\n\
sec-websocket-version: 13\r\n\r\n";

pub const RESPONSE: &[u8] = b"\
HTTP/1.1 101 Switching Protocols\r\n\
upgrade: websocket\r\n\
connection: upgrade\r\n\
sec-websocket-accept: s3pPLMBiTxaQ9kYGzzhZRbK+xOo=\r\n\r\n";

#[test]
fn send_upgrade_request() {
    fn run_limit(limit: usize) {
        let mut rw = ChunkTransport::new(Vec::new(), 1, limit);

        let request = Request::new(b"/ws", b"www.example.com", b"dGhlIHNhbXBsZSBub25jZQ==");

        let mut buf = vec![0u8; 1024];

        let send_n = Endpoint::<ChunkTransport, Client>::send_request_sync(
            &mut rw,
            &mut buf,
            &request,
        )
        .unwrap();

        assert_eq!(send_n, REQUEST.len());
        assert_eq!(&buf[..send_n], REQUEST);
        assert_eq!(rw.written(), REQUEST.to_vec());
    }

    for i in 1..=256 {
        run_limit(i);
    }
}

#[test]
fn recv_upgrade_response() {
    fn run_limit(limit: usize) {
        let mut rw = ChunkTransport::new(RESPONSE.to_vec(), limit, 1);

        let mut buf = vec![0u8; 1024];
        let mut response = Response::new(b"");

        let recv_n = Endpoint::<ChunkTransport, Client>::recv_response_sync(
            &mut rw,
            &mut buf,
            &mut response,
        )
        .unwrap();

        assert_eq!(recv_n, RESPONSE.len());
        assert_eq!(response.sec_accept, b"s3pPLMBiTxaQ9kYGzzhZRbK+xOo=".to_vec());
        assert_eq!(&buf[..recv_n], RESPONSE);
    }

    for i in 1..=256 {
        run_limit(i);
    }
}

#[test]
fn client_connect() {
    let rw = ChunkTransport::new(RESPONSE.to_vec(), 1, 1);

    let mut buf = vec![0u8; 1024];

    // the accept token in the canned response cannot match a fresh random
    // key
    let stream = Endpoint::<ChunkTransport, Client>::connect_sync(rw, &mut buf, "example.com", "/");
    match stream {
        Err(WsError::Handshake(e)) => assert_eq!(e, HandshakeError::SecWebSocketAccept),
        _ => panic!("expected a sec-websocket-accept mismatch"),
    }
}

#[test]
fn send_upgrade_response() {
    fn run_limit(limit: usize) {
        let mut rw = ChunkTransport::new(Vec::new(), 1, limit);

        let response = Response::new(b"s3pPLMBiTxaQ9kYGzzhZRbK+xOo=");

        let mut buf = vec![0u8; 1024];

        let send_n = Endpoint::<ChunkTransport, Server>::send_response(
            &mut rw,
            &mut buf,
            &response,
        )
        .unwrap();

        assert_eq!(send_n, RESPONSE.len());
        assert_eq!(&buf[..send_n], RESPONSE);
        assert_eq!(rw.written(), RESPONSE.to_vec());
    }

    for i in 1..=256 {
        run_limit(i);
    }
}

#[test]
fn recv_upgrade_request() {
    fn run_limit(limit: usize) {
        let mut rw = ChunkTransport::new(REQUEST.to_vec(), limit, 1);

        let mut buf = vec![0u8; 1024];
        let mut request = Request::new(b"", b"", b"");

        let recv_n = Endpoint::<ChunkTransport, Server>::recv_request(
            &mut rw,
            &mut buf,
            &mut request,
        )
        .unwrap();

        assert_eq!(recv_n, REQUEST.len());
        assert_eq!(request.host, b"www.example.com".to_vec());
        assert_eq!(request.path, b"/ws".to_vec());
        assert_eq!(request.sec_key, b"dGhlIHNhbXBsZSBub25jZQ==".to_vec());
        assert_eq!(&buf[..recv_n], REQUEST);
    }

    for i in 1..=256 {
        run_limit(i);
    }
}

#[test]
fn server_accept() {
    let rw = ChunkTransport::new(REQUEST.to_vec(), 1, 1);

    let mut buf = vec![0u8; 1024];

    let stream = Endpoint::<ChunkTransport, Server>::accept(rw, &mut buf, "www.example.com", "/ws")
        .unwrap();
    // the reply derives its accept token from the request's key
    assert_eq!(stream.io.written(), RESPONSE.to_vec());
}

#[test]
fn server_accept_mismatch() {
    let mut buf = vec![0u8; 1024];

    let rw = ChunkTransport::new(REQUEST.to_vec(), 1, 1);
    let r = Endpoint::<ChunkTransport, Server>::accept(rw, &mut buf, "other.example.com", "/ws");
    match r {
        Err(WsError::Handshake(e)) => assert_eq!(e, HandshakeError::HostMismatch),
        _ => panic!("expected a host mismatch"),
    }

    let rw = ChunkTransport::new(REQUEST.to_vec(), 1, 1);
    let r = Endpoint::<ChunkTransport, Server>::accept(rw, &mut buf, "www.example.com", "/other");
    match r {
        Err(WsError::Handshake(e)) => assert_eq!(e, HandshakeError::PathMismatch),
        _ => panic!("expected a path mismatch"),
    }
}

/// One direction of a duplex in-memory connection.
pub struct PipeEnd {
    pub rx: Rc<RefCell<Vec<u8>>>,
    pub rx_cursor: usize,
    pub tx: Rc<RefCell<Vec<u8>>>,
}

impl Transport for PipeEnd {
    fn read(&mut self, buf: &mut Vec<u8>, beg: usize, end: usize) -> usize {
        let rx = self.rx.borrow();
        let left = rx.len() - self.rx_cursor;
        let n = (end - beg).min(left);
        buf[beg..beg + n].copy_from_slice(&rx[self.rx_cursor..self.rx_cursor + n]);
        drop(rx);
        self.rx_cursor += n;
        n
    }

    fn write(&mut self, head: &[u8], payload: &[u8], beg: usize, end: usize) -> usize {
        let mut tx = self.tx.borrow_mut();
        tx.extend_from_slice(head);
        tx.extend_from_slice(&payload[beg..end]);
        head.len() + (end - beg)
    }

    fn flush(&mut self) {}
}

// A client and a server echoing through two in-memory pipes: every payload
// comes back exactly as it went out.
#[test]
fn relay_echo() {
    let c2s = Rc::new(RefCell::new(Vec::new()));
    let s2c = Rc::new(RefCell::new(Vec::new()));

    let client_end = PipeEnd { rx: s2c.clone(), rx_cursor: 0, tx: c2s.clone() };
    let server_end = PipeEnd { rx: c2s.clone(), rx_cursor: 0, tx: s2c.clone() };

    let mut client = Stream::new(client_end, Client).guard();
    let mut server = Stream::new(server_end, Server).guard();

    let data = b"ECHO ECHO ECHO!";
    let mut buf = vec![0u8; 1024];

    for _ in 0..5 {
        assert!(client.write_all(data));

        let n = server.read(&mut buf).unwrap();
        assert_eq!(&buf[..n], data);

        assert!(server.write_all(&buf[..n].to_vec()));

        let n = client.read(&mut buf).unwrap();
        assert_eq!(n, data.len());
        assert_eq!(&buf[..n], data);
    }
}
