use lightws::error::{FrameError, WsError};
use lightws::frame::{Fin, FrameHead, Mask, OpCode, PayloadLen};
use lightws::role::{Client, RoleHelper, Server};
use lightws::stream::Stream;
use lightws::transport::ChunkTransport;

fn make_head(opcode: OpCode, mask: Mask, len: usize) -> Vec<u8> {
    let mut tmp = vec![0u8; 14];
    let head = FrameHead::new(Fin::Y, opcode, mask, PayloadLen::from_num(len as u64));
    let head_len = head.encode(&mut tmp).unwrap();
    tmp.truncate(head_len);
    tmp
}

fn make_data(len: usize) -> Vec<u8> {
    std::iter::repeat(rand::random::<u8>()).take(len).collect()
}

// frame bytes as a sender with this mask puts them on the wire, and the
// payload; only maskless senders (Skip or none) are built here, so the
// payload goes out unchanged
fn make_frame_with_mask(opcode: OpCode, mask: Mask, len: usize) -> (Vec<u8>, Vec<u8>) {
    let data = make_data(len);
    let mut frame = make_head(opcode, mask, len);
    frame.extend_from_slice(&data);
    (frame, data)
}

fn make_frame<R: RoleHelper>(opcode: OpCode, len: usize) -> (Vec<u8>, Vec<u8>) {
    make_frame_with_mask(opcode, R::new().write_mask_key(), len)
}

#[test]
fn read_from_stream() {
    fn read<R1: RoleHelper, R2: RoleHelper>(n: usize) {
        let (frame, data) = make_frame::<R1>(OpCode::Binary, n);

        let limit = frame.len().max(1);
        let io = ChunkTransport::new(frame, limit, 1);
        let mut stream = Stream::new(io, R2::new());

        let mut buf = vec![0u8; n + 14];
        let read_n = stream.read(&mut buf).unwrap();

        assert_eq!(read_n, n);
        assert_eq!(&buf[..n], &data);
        assert_eq!(stream.io.inbox_left(), 0);
    }

    for i in 0..=0x2000 {
        read::<Client, Server>(i);
        read::<Server, Client>(i);
    }

    for i in [65536, 65537, 100000] {
        read::<Client, Server>(i);
        read::<Server, Client>(i);
    }
}

#[test]
fn read_from_limit_stream() {
    fn read<R1: RoleHelper, R2: RoleHelper>(n: usize, limit: usize) {
        let (frame, data) = make_frame::<R1>(OpCode::Binary, n);

        let io = ChunkTransport::new(frame, limit, 1);
        let mut buf = Vec::new();
        let mut stream = Stream::new(io, R2::new()).guard();

        let read_n = stream.read_to_end(&mut buf).unwrap();

        assert_eq!(read_n, n);
        assert_eq!(&buf[..n], &data);
    }

    for i in 0..=256 {
        for limit in 1..=300 {
            read::<Client, Server>(i, limit);
            read::<Server, Client>(i, limit);
        }
    }

    for i in [65536, 65537, 100000] {
        for limit in [1, 7, 64, 333, 1024] {
            read::<Client, Server>(i, limit);
            read::<Server, Client>(i, limit);
        }
    }
}

#[test]
fn read_eof_from_stream() {
    fn read<R: RoleHelper>() {
        let io = ChunkTransport::new(Vec::new(), 1, 1);
        let mut stream = Stream::new(io, R::new());
        let mut buf = vec![0u8; 32];
        let n = stream.read(&mut buf).unwrap();
        assert_eq!(n, 0);
        assert!(stream.is_read_end());
        assert!(stream.is_read_eof());

        let mut stream = stream.guard();

        let n = stream.read_to_end(&mut buf).unwrap();
        assert_eq!(n, 0);
        assert!(stream.is_read_end());
        assert!(stream.is_read_eof());
    }
    read::<Client>();
    read::<Server>();
}

#[test]
fn read_close_from_stream() {
    fn read<R1: RoleHelper, R2: RoleHelper>(limit: usize) {
        let (frame, _) = make_frame::<R1>(OpCode::Close, 1);
        let io = ChunkTransport::new(frame, limit, 1);

        let mut stream = Stream::new(io, R2::new());

        let mut buf = vec![0u8; 32];

        let n = stream.read(&mut buf).unwrap();
        assert_eq!(n, 0);

        let mut stream = stream.guard();

        let n = stream.read_to_end(&mut buf).unwrap();
        assert_eq!(n, 0);
        assert!(stream.is_read_end());
        assert!(stream.is_read_close());
    }

    for i in 1..=32 {
        read::<Client, Server>(i);
        read::<Server, Client>(i);
    }
}

#[test]
fn read_ping_from_stream() {
    fn read<R1: RoleHelper, R2: RoleHelper>(n: usize, limit: usize) {
        let (frame, data) = make_frame::<R1>(OpCode::Ping, n);

        let io = ChunkTransport::new(frame, limit, 1);

        let mut buf = Vec::new();
        let mut stream = Stream::new(io, R2::new()).guard();

        let read_n = stream.read_to_end(&mut buf).unwrap();

        assert_eq!(read_n, 0);
        assert_eq!(stream.ping_data(), data);
        assert!(stream.is_ping_completed());
    }

    for i in 0..=125 {
        for limit in 1..=128 {
            read::<Client, Server>(i, limit);
            read::<Server, Client>(i, limit);
        }
    }
}

#[test]
fn read_multi_frame_from_stream() {
    fn read<R1: RoleHelper, R2: RoleHelper>(n: usize, step: usize, limit: usize) {
        let mut len = 0;
        let mut frame = Vec::new();
        let mut data = Vec::new();

        for i in 0..n {
            let (f, d) = make_frame::<R1>(OpCode::Binary, step + i * step);
            len += d.len();
            frame.extend_from_slice(&f);
            data.extend_from_slice(&d);
            assert_eq!(len, (i + 1) * (i + 2) * step / 2);
        }

        let (close, _) = make_frame::<R1>(OpCode::Close, 1);
        frame.extend_from_slice(&close);

        let io = ChunkTransport::new(frame, limit, 1);

        let mut buf = Vec::new();
        let mut stream = Stream::new(io, R2::new()).guard();

        let read_n = stream.read_to_end(&mut buf).unwrap();

        assert!(stream.is_read_end());
        assert!(stream.is_read_close());
        assert_eq!(read_n, len);
        assert_eq!(&buf[..len], &data);
    }

    for n in 1..=20 {
        for step in [1, 10, 100, 1000] {
            for limit in [1, 10, 100, 1000, 10000, usize::MAX] {
                read::<Client, Server>(n, step, limit);
                read::<Server, Client>(n, step, limit);
            }
        }
    }
}

#[test]
fn read_multi_ping_from_stream() {
    fn read<R1: RoleHelper, R2: RoleHelper>(n: usize, step: usize, limit: usize) {
        let mut len = 0;
        let mut frame = Vec::new();
        let mut data = Vec::new();

        for i in 0..n {
            let (f, d) = make_frame::<R1>(OpCode::Ping, step + i * step);
            len += d.len();
            frame.extend_from_slice(&f);
            data = d;
            assert_eq!(len, (i + 1) * (i + 2) * step / 2);
        }

        let io = ChunkTransport::new(frame, limit, 1);

        let mut buf = Vec::new();
        let mut stream = Stream::new(io, R2::new()).guard();

        let read_n = stream.read_to_end(&mut buf).unwrap();

        assert_eq!(read_n, 0);
        assert_eq!(stream.ping_data(), data);
    }

    for n in 1..=125 {
        for limit in 1..=128 {
            read::<Client, Server>(n, 1, limit);
            read::<Server, Client>(n, 1, limit);
        }
    }
}

// Ping payloads of exactly 0 and exactly 125 bytes pass; 126 bytes and up
// fail with IllegalData.
#[test]
fn ping_payload_boundaries() {
    for n in [0usize, 125] {
        let (frame, data) = make_frame::<Client>(OpCode::Ping, n);
        let io = ChunkTransport::new(frame, usize::MAX, 1);
        let mut stream = Stream::new(io, Server::new()).guard();
        let mut buf = Vec::new();
        let read_n = stream.read_to_end(&mut buf).unwrap();
        assert_eq!(read_n, 0);
        assert_eq!(stream.ping_data(), data);
        assert!(stream.is_ping_completed());
    }

    for n in [126usize, 127, 1000] {
        // a ping head announcing n bytes: encode a binary head of length n
        // and patch the opcode nibble
        let mut frame = make_head(OpCode::Binary, Mask::Skip, n);
        frame[0] = 0x89;
        frame.extend_from_slice(&make_data(n));
        let io = ChunkTransport::new(frame, usize::MAX, 1);
        let mut stream = Stream::new(io, Server::new()).guard();
        let mut buf = vec![0u8; n + 14];
        assert_eq!(stream.read(&mut buf), Err(WsError::Frame(FrameError::IllegalData)));
    }
}

// A head split across 1..14 transport reads decodes as soon as its last
// byte arrives.
#[test]
fn head_split_across_reads() {
    // a 14-byte head: 64-bit length and a mask key
    let len = 65536usize;
    let (frame, data) = make_frame_with_mask(OpCode::Binary, Mask::Skip, len);

    for limit in 1..=14 {
        let io = ChunkTransport::new(frame.clone(), limit, 1);
        let mut stream = Stream::new(io, Server::new());
        let mut buf = vec![0u8; len + 14];
        // while the head is not whole, a direct read returns 0 and the
        // stream stays between frames
        let whole_head_reads = (14 + limit - 1) / limit;
        let mut reads = 0;
        let n = loop {
            let n = stream.read(&mut buf).unwrap();
            reads += 1;
            if n != 0 {
                break n;
            }
            assert!(!stream.is_read_end());
            if reads < whole_head_reads {
                assert!(stream.is_read_partial_head());
            }
        };
        assert!(reads >= whole_head_reads);
        let mut got = buf[..n].to_vec();
        let mut total = n;
        let mut stream = stream.guard();
        while total < len {
            let n = stream.read(&mut buf).unwrap();
            got.extend_from_slice(&buf[..n]);
            total += n;
        }
        assert_eq!(got, data);
    }
}

// A binary frame, then a ping, then another binary frame: the data stream
// holds exactly the two payloads, the ping sits in the ping buffer.
#[test]
fn ping_between_frames() {
    for (n, k, m) in [(3usize, 0usize, 5usize), (200, 125, 100), (65536, 5, 1)] {
        let (f1, d1) = make_frame::<Client>(OpCode::Binary, n);
        let (fp, dp) = make_frame::<Client>(OpCode::Ping, k);
        let (f2, d2) = make_frame::<Client>(OpCode::Binary, m);
        let mut wire = f1;
        wire.extend_from_slice(&fp);
        wire.extend_from_slice(&f2);
        wire.extend_from_slice(&make_frame::<Client>(OpCode::Close, 0).0);

        for limit in [1, 3, 14, 1000, usize::MAX] {
            let io = ChunkTransport::new(wire.clone(), limit, 1);
            let mut stream = Stream::new(io, Server::new()).guard();
            let mut buf = Vec::new();
            let read_n = stream.read_to_end(&mut buf).unwrap();
            assert_eq!(read_n, n + m);
            let mut want = d1.clone();
            want.extend_from_slice(&d2);
            assert_eq!(buf, want);
            assert_eq!(stream.ping_data(), dp);
            assert!(stream.is_ping_completed());
        }
    }
}
