use lightws::error::CtrlError;
use lightws::frame::{Fin, FrameHead, Mask, OpCode, PayloadLen};
use lightws::role::{Client, FixedMaskClient, RoleHelper, Server, StandardClient};
use lightws::stream::Stream;
use lightws::transport::{ChunkTransport, Transport};

fn make_head(opcode: OpCode, mask: Mask, len: usize) -> Vec<u8> {
    let mut tmp = vec![0u8; 14];
    let head = FrameHead::new(Fin::Y, opcode, mask, PayloadLen::from_num(len as u64));
    let head_len = head.encode(&mut tmp).unwrap();
    tmp.truncate(head_len);
    tmp
}

fn make_data(len: usize) -> Vec<u8> {
    std::iter::repeat(rand::random::<u8>()).take(len).collect()
}

fn make_frame<R: RoleHelper>(opcode: OpCode, len: usize) -> (Vec<u8>, Vec<u8>) {
    let data = make_data(len);
    let mut frame = make_head(opcode, R::new().write_mask_key(), len);
    frame.extend_from_slice(&data);
    (frame, data)
}

#[test]
fn write_to_stream() {
    fn write<R: RoleHelper>(n: usize) {
        let (frame, data) = make_frame::<R>(OpCode::Binary, n);

        let io = ChunkTransport::new(Vec::new(), 1, usize::MAX);
        let mut stream = Stream::new(io, R::new());

        let write_n = stream.write(&data).unwrap();

        assert_eq!(write_n, n);
        assert_eq!(stream.io.written(), frame);
    }

    for i in 1..=0x2000 {
        write::<Client>(i);
        write::<Server>(i);
    }

    for i in [65536, 65537, 100000] {
        write::<Client>(i);
        write::<Server>(i);
    }
}

#[test]
fn write_to_limit_stream() {
    fn write<R: RoleHelper>(n: usize, limit: usize) {
        let (frame, data) = make_frame::<R>(OpCode::Binary, n);

        let io = ChunkTransport::new(Vec::new(), 1, limit);
        let mut stream = Stream::new(io, R::new()).guard();

        assert!(stream.write_all(&data));

        assert_eq!(stream.io.written(), frame);
    }

    for i in 1..=256 {
        for limit in 1..=300 {
            write::<Client>(i, limit);
            write::<Server>(i, limit);
        }
    }

    for i in [65536, 65537, 100000] {
        for limit in [1, 7, 64, 333, 1024] {
            write::<Client>(i, limit);
            write::<Server>(i, limit);
        }
    }
}

// In-memory transport whose writes feed its own reads, in chunks.
pub struct LoopbackTransport {
    pub buf: Vec<u8>,
    pub rlimit: usize,
    pub wlimit: usize,
    pub cursor: usize,
}

impl Transport for LoopbackTransport {
    fn read(&mut self, buf: &mut Vec<u8>, beg: usize, end: usize) -> usize {
        let window = (end - beg).min(self.rlimit);
        let left = self.buf.len() - self.cursor;
        let n = window.min(left);
        buf[beg..beg + n].copy_from_slice(&self.buf[self.cursor..self.cursor + n]);
        self.cursor += n;
        n
    }

    fn write(&mut self, head: &[u8], payload: &[u8], beg: usize, end: usize) -> usize {
        let total = head.len() + (end - beg);
        let n = total.min(self.wlimit);
        for k in 0..n {
            let b = if k < head.len() {
                head[k]
            } else {
                payload[beg + k - head.len()]
            };
            self.buf.push(b);
        }
        n
    }

    fn flush(&mut self) {}
}

#[test]
fn read_write_stream() {
    fn read_write<R: RoleHelper>(rlimit: usize, wlimit: usize, len: usize) {
        let io = LoopbackTransport { buf: Vec::new(), rlimit, wlimit, cursor: 0 };
        // data written to a client stream should be read as a server
        // stream; here both ends sit on the same stream, which the engine
        // still handles
        let mut stream = Stream::new(io, R::new());

        let data: Vec<u8> = std::iter::repeat(rand::random::<u8>()).take(len).collect();
        let mut data2: Vec<u8> = Vec::new();

        let mut buf = vec![0u8; 0x2000];
        let mut to_write = data.len();

        while to_write > 0 {
            let wbeg = data.len() - to_write;
            let n = loop {
                let x = stream.write(&data[wbeg..]).unwrap();
                if x != 0 {
                    break x;
                }
            };

            let mut tmp: Vec<u8> = Vec::new();
            loop {
                if stream.io.cursor == stream.io.buf.len() {
                    break;
                }
                let k = stream.read(&mut buf).unwrap();
                tmp.extend_from_slice(&buf[..k]);
            }

            assert_eq!(tmp.len(), n);
            assert_eq!(&data[wbeg..wbeg + n], &tmp);

            to_write -= n;
            data2.extend_from_slice(&tmp);
        }

        assert_eq!(&data, &data2);
    }

    for limit in 1..512 {
        for len in 1..=256 {
            read_write::<Client>(limit, 512 - limit, len);
            read_write::<Server>(limit, 512 - limit, len);
        }
    }
}

// Changing the write mask fails mid-frame and succeeds again once the
// frame is finished.
#[test]
fn set_mask_during_write() {
    let io = ChunkTransport::new(Vec::new(), 1, 1);
    let mut stream = Stream::new(io, FixedMaskClient::new());
    assert!(stream.set_write_mask([1, 2, 3, 4]).is_ok());
    assert_eq!(stream.write_mask(), Mask::Key([1, 2, 3, 4]));

    let data = make_data(5);
    // one byte per transport write: the head is partially flushed
    let n = stream.write(&data).unwrap();
    assert_eq!(n, 0);
    assert!(stream.is_write_partial_head());
    assert_eq!(stream.set_write_mask([9, 9, 9, 9]), Err(CtrlError::SetMaskInWrite));

    // drive the frame to its end
    let mut written = 0;
    while written < data.len() {
        written += stream.write(&data[written..]).unwrap();
    }
    assert!(stream.set_write_mask([9, 9, 9, 9]).is_ok());

    // a standard client accepts a mask change between frames too
    let io = ChunkTransport::new(Vec::new(), 1, usize::MAX);
    let mut stream = Stream::new(io, StandardClient::new());
    assert!(stream.set_write_mask([5, 6, 7, 8]).is_ok());
    let n = stream.write(&data).unwrap();
    assert_eq!(n, data.len());
    // the frame head carries the key that was set
    let wire = stream.io.written();
    assert_eq!(&wire[2..6], &[5, 6, 7, 8]);
}
