use lightws::error::HandshakeError;
use lightws::handshake::{Request, Response, derive_accept_key, new_sec_key};
use rand::Rng;
use rand::seq::SliceRandom;
use rand::thread_rng;

pub const TEMPLATE_HEADERS: &str = "\
    host: www.example.com\r\n\
    upgrade: websocket\r\n\
    connection: upgrade\r\n\
    sec-websocket-key: dGhlIHNhbXBsZSBub25jZQ==\r\n\
    sec-websocket-accept: s3pPLMBiTxaQ9kYGzzhZRbK+xOo=\r\n\
    sec-websocket-version: 13";

fn rand_ascii() -> char {
    let x: u8 = thread_rng().gen_range(1..=4);
    let ch: u8 = match x {
        1 => thread_rng().gen_range(b'0'..=b'9'),
        2 => thread_rng().gen_range(b'A'..=b'Z'),
        3 => thread_rng().gen_range(b'a'..=b'z'),
        _ => b'-',
    };
    ch as char
}

fn rand_str(len: usize) -> String {
    let mut s = String::new();
    for _ in 0..len {
        s.push(rand_ascii());
    }
    s
}

fn make_header(max_len: usize) -> String {
    let name_len: usize = thread_rng().gen_range(1..=max_len);
    let value_len: usize = thread_rng().gen_range(1..=max_len);
    format!("{}: {}\r\n", rand_str(name_len), rand_str(value_len))
}

pub fn make_headers(count: usize, max_len: usize, headers: &str) -> String {
    let mut s = Vec::<String>::with_capacity(256);
    for hdr in headers.split("\r\n") {
        s.push(format!("{}\r\n", hdr));
    }
    for _ in 0..count {
        s.push(make_header(max_len));
    }
    s.shuffle(&mut thread_rng());
    s.concat()
}

#[test]
fn generate_sec_key() {
    for _ in 0..=1024 {
        // must be 24 base64 characters
        assert_eq!(new_sec_key().len(), 24);
    }
}

#[test]
fn derive_sec_key() {
    assert_eq!(
        derive_accept_key(b"dGhlIHNhbXBsZSBub25jZQ==").as_slice(),
        b"s3pPLMBiTxaQ9kYGzzhZRbK+xOo=",
    );
}

#[test]
fn client_handshake() {
    for i in 0..64 {
        let hdr_len: usize = thread_rng().gen_range(1..128);
        let headers = format!("GET / HTTP/1.1\r\n{}\r\n", make_headers(i, hdr_len, TEMPLATE_HEADERS));

        let mut request = Request::new_custom(b"", b"", b"", 1024);
        let decode_n = request.decode(headers.as_bytes()).unwrap();

        assert_eq!(decode_n, headers.len());
        assert_eq!(request.path, b"/".to_vec());
        assert_eq!(request.host, b"www.example.com".to_vec());
        assert_eq!(request.sec_key, b"dGhlIHNhbXBsZSBub25jZQ==".to_vec());

        // the accept header is not among the required five
        request
            .other_headers
            .iter()
            .find(|hdr| {
                hdr.name.as_slice() == b"sec-websocket-accept"
                    && hdr.value.as_slice() == b"s3pPLMBiTxaQ9kYGzzhZRbK+xOo="
            })
            .unwrap();

        let mut buf: Vec<u8> = vec![0; 0x4000];
        let encode_n = request.encode(&mut buf).unwrap();
        assert_eq!(encode_n, decode_n);
    }
}

fn run_client_handshake2(host: &str, path: &str, sec_key: &str) {
    let headers = format!(
        "GET {1} HTTP/1.1\r\n{0}\r\n",
        make_headers(
            16,
            32,
            &format!(
                "host: {0}\r\nsec-websocket-key: {1}\r\nupgrade: websocket\r\nconnection: upgrade\r\nsec-websocket-version: 13",
                host, sec_key
            ),
        ),
        path,
    );

    let mut request = Request::new(b"", b"", b"");
    let decode_n = request.decode(headers.as_bytes()).unwrap();
    assert_eq!(decode_n, headers.len());
    assert_eq!(request.host, host.as_bytes().to_vec());
    assert_eq!(request.path, path.as_bytes().to_vec());
    assert_eq!(request.sec_key, sec_key.as_bytes().to_vec());

    let mut buf: Vec<u8> = vec![0; 0x4000];
    let encode_n = request.encode(&mut buf).unwrap();
    assert_eq!(encode_n, decode_n);
}

#[test]
fn client_handshake2() {
    run_client_handshake2("host", "/path", "key");
    run_client_handshake2("www.abc.com", "/path/to", "xxxxxx");
    run_client_handshake2("wwww.www.ww.w", "/path/to/to/path", "xxxxxxyyyy");
}

#[test]
fn server_handshake() {
    for i in 0..64 {
        let hdr_len: usize = thread_rng().gen_range(1..128);
        let headers = format!(
            "HTTP/1.1 101 Switching Protocols\r\n{}\r\n",
            make_headers(i, hdr_len, TEMPLATE_HEADERS),
        );

        let mut response = Response::new_custom(b"", 1024);
        let decode_n = response.decode(headers.as_bytes()).unwrap();

        assert_eq!(decode_n, headers.len());
        assert_eq!(response.sec_accept, b"s3pPLMBiTxaQ9kYGzzhZRbK+xOo=".to_vec());

        // headers required only of requests stay among the others
        for (name, value) in [
            (b"host".to_vec(), b"www.example.com".to_vec()),
            (b"sec-websocket-version".to_vec(), b"13".to_vec()),
            (b"sec-websocket-key".to_vec(), b"dGhlIHNhbXBsZSBub25jZQ==".to_vec()),
        ] {
            response
                .other_headers
                .iter()
                .find(|hdr| hdr.name == name && hdr.value == value)
                .unwrap();
        }

        let mut buf: Vec<u8> = vec![0; 0x4000];
        let encode_n = response.encode(&mut buf).unwrap();
        assert_eq!(encode_n, decode_n);
    }
}

fn run_server_handshake2(sec_accept: &str) {
    let headers = format!(
        "HTTP/1.1 101 Switching Protocols\r\n{}\r\n",
        make_headers(
            16,
            32,
            &format!(
                "upgrade: websocket\r\nconnection: upgrade\r\nsec-websocket-accept: {}",
                sec_accept
            ),
        ),
    );

    let mut response = Response::new(b"");
    let decode_n = response.decode(headers.as_bytes()).unwrap();
    assert_eq!(decode_n, headers.len());
    assert_eq!(response.sec_accept, sec_accept.as_bytes().to_vec());

    let mut buf: Vec<u8> = vec![0; 0x4000];
    let encode_n = response.encode(&mut buf).unwrap();
    assert_eq!(encode_n, decode_n);
}

#[test]
fn server_handshake2() {
    run_server_handshake2("aaa");
    run_server_handshake2("bbbbbbbbbb");
    run_server_handshake2("xxxxxxxxx==");
}

// Each handshake check rejects the input that breaks it.
#[test]
fn handshake_errors() {
    let mut request = Request::new(b"", b"", b"");
    // an incomplete head asks for more data
    assert_eq!(request.decode(b"GET / HTTP/1.1\r\n"), Err(HandshakeError::NotEnoughData));
    // wrong method
    assert_eq!(
        request.decode(b"POST / HTTP/1.1\r\nhost: h\r\n\r\n"),
        Err(HandshakeError::HttpMethod),
    );
    // wrong version
    assert_eq!(
        request.decode(b"GET / HTTP/1.0\r\nhost: h\r\n\r\n"),
        Err(HandshakeError::HttpVersion),
    );
    // missing host
    assert_eq!(
        request.decode(b"GET / HTTP/1.1\r\nupgrade: websocket\r\n\r\n"),
        Err(HandshakeError::HttpHost),
    );
    // wrong upgrade value
    assert_eq!(
        request.decode(
            b"GET / HTTP/1.1\r\nhost: h\r\nupgrade: http2\r\nconnection: upgrade\r\nsec-websocket-key: k\r\nsec-websocket-version: 13\r\n\r\n",
        ),
        Err(HandshakeError::Upgrade),
    );
    // wrong sec-websocket-version value
    assert_eq!(
        request.decode(
            b"GET / HTTP/1.1\r\nhost: h\r\nupgrade: websocket\r\nconnection: upgrade\r\nsec-websocket-key: k\r\nsec-websocket-version: 8\r\n\r\n",
        ),
        Err(HandshakeError::SecWebSocketVersion),
    );
    // malformed bytes carry the parser's diagnostic
    assert!(matches!(
        request.decode(b"\x00\x01\x02\r\n\r\n"),
        Err(HandshakeError::HttpParse(_)),
    ));

    let mut response = Response::new(b"");
    // wrong status code
    assert_eq!(
        response.decode(b"HTTP/1.1 200 OK\r\nupgrade: websocket\r\n\r\n"),
        Err(HandshakeError::HttpStatusCode),
    );
    // missing accept header
    assert_eq!(
        response.decode(
            b"HTTP/1.1 101 Switching Protocols\r\nupgrade: websocket\r\nconnection: upgrade\r\n\r\n",
        ),
        Err(HandshakeError::SecWebSocketAccept),
    );
    // a request or response too large for the buffer fails encoding
    let mut tiny = vec![0u8; 8];
    assert_eq!(
        Request::new(b"/ws", b"h", b"k").encode(&mut tiny),
        Err(HandshakeError::NotEnoughCapacity),
    );
}
