use lightws::error::FrameError;
use lightws::frame::{Fin, FrameHead, Mask, OpCode, PayloadLen};
use lightws::frame::mask::{apply_mask, apply_mask4, new_rand_key};

#[test]
fn fin() {
    for v in [0x00u8, 0x80] {
        let f = Fin::from_flag(v).unwrap();
        assert_eq!(f.to_flag(), v);
    }
}

#[test]
fn opcode() {
    for v in [0x00u8, 0x01, 0x02, 0x08, 0x09, 0x0a] {
        let op = OpCode::from_flag(v).unwrap();
        assert_eq!(op.to_flag(), v);
    }
}

#[test]
fn standard() {
    for v in 0..=125u8 {
        let a = PayloadLen::from_flag(v);
        let b = PayloadLen::from_num(v as u64);

        assert_eq!(a.to_flag(), v);
        assert_eq!(a.to_num(), b.to_num());
    }
}

#[test]
fn extend1() {
    for v in 126..=65535u16 {
        let a = PayloadLen::from_num(v as u64);
        let b = PayloadLen::from_byte2(v.to_be_bytes());

        assert_eq!(a.to_flag(), 126u8);
        assert_eq!(a.to_num(), b.to_num());
    }
}

#[test]
fn extend2() {
    for v in 65536..=100000u64 {
        let a = PayloadLen::from_num(v);
        let b = PayloadLen::from_byte8(v.to_be_bytes());

        assert_eq!(a.to_flag(), 127u8);
        assert_eq!(a.to_num(), b.to_num());
    }
}

#[test]
fn mask_store() {
    for v in [0x00u8, 0x80] {
        assert_eq!(Mask::from_flag(v).unwrap().to_flag(), v);
    }
}

#[test]
fn mask_byte() {
    let key: [u8; 4] = rand::random();
    let buf: Vec<u8> = std::iter::repeat(rand::random::<u8>()).take(1024).collect();

    assert_eq!(buf.len(), 1024);

    let mut buf2 = buf.clone();
    apply_mask(key, &mut buf2);
    apply_mask(key, &mut buf2);

    assert_eq!(buf, buf2);
}

#[test]
fn mask_byte4() {
    for i in 0..4096 {
        let key: [u8; 4] = rand::random();
        let buf: Vec<u8> = std::iter::repeat(rand::random::<u8>()).take(i).collect();

        assert_eq!(buf.len(), i);

        let mut buf2 = buf.clone();
        apply_mask4(key, &mut buf2);
        apply_mask4(key, &mut buf2);

        assert_eq!(buf, buf2);
    }
}

// The word-wise masking produces exactly the bytes of the byte-wise one.
#[test]
fn mask_byte4_matches_mask_byte() {
    for i in 0..512 {
        let key: [u8; 4] = rand::random();
        let buf: Vec<u8> = (0..i).map(|_| rand::random::<u8>()).collect();

        let mut a = buf.clone();
        let mut b = buf.clone();
        apply_mask(key, &mut a);
        apply_mask4(key, &mut b);
        assert_eq!(a, b);
    }
}

#[test]
fn frame_head() {
    let head = FrameHead::new(
        Fin::Y,
        OpCode::Binary,
        Mask::Key(new_rand_key()),
        PayloadLen::from_num(4096),
    );

    let head2 = FrameHead::new(
        Fin::N,
        OpCode::Binary,
        Mask::Key(new_rand_key()),
        PayloadLen::from_num(64),
    );

    for head in [head, head2] {
        let mut buf = vec![0u8; 1024];

        let encode_n = head.encode(&mut buf).unwrap();

        assert!(encode_n + 128 <= buf.len());

        let (decoded, decode_n) = FrameHead::decode(&buf[0..encode_n + 128]).unwrap();

        assert_eq!(encode_n, decode_n);
        assert_eq!(head, decoded);

        let mut buf2 = vec![0u8; 1024];
        let encode_n2 = head.encode_unchecked(&mut buf2);

        assert_eq!(encode_n2, encode_n);
        assert_eq!(&buf[0..encode_n], &buf2[0..encode_n2]);
    }
}

// Every length boundary picks the correct length-field width.
#[test]
fn payload_length_boundaries() {
    let cases: [(u64, usize); 8] = [
        (0, 2),
        (1, 2),
        (125, 2),
        (126, 4),
        (65535, 4),
        (65536, 10),
        (1 << 32, 10),
        ((1 << 32) + 1, 10),
    ];
    for (len, head_size) in cases {
        let head = FrameHead::new(Fin::Y, OpCode::Binary, Mask::Plain, PayloadLen::from_num(len));
        let mut buf = vec![0u8; 14];
        let n = head.encode(&mut buf).unwrap();
        assert_eq!(n, head_size);
        let (decoded, m) = FrameHead::decode(&buf[..n]).unwrap();
        assert_eq!(m, n);
        assert_eq!(decoded.length.to_num(), len);
    }
}

// A zero mask key on the wire comes back as Skip.
#[test]
fn zero_key_decodes_as_skip() {
    let head = FrameHead::new(Fin::Y, OpCode::Binary, Mask::Skip, PayloadLen::from_num(3));
    let mut buf = vec![0u8; 14];
    let n = head.encode(&mut buf).unwrap();
    assert_eq!(n, 6);
    let (decoded, _) = FrameHead::decode(&buf[..n]).unwrap();
    assert_eq!(decoded.mask, Mask::Skip);
}

// Each decode error comes from the malformed byte that names it.
#[test]
fn decode_errors() {
    // fewer than two bytes
    assert_eq!(FrameHead::decode(&[0x82]), Err(FrameError::NotEnoughData));
    // high nibble of the first byte neither 0x8 nor 0x0
    assert_eq!(FrameHead::decode(&[0x42, 0x00]), Err(FrameError::IllegalFin));
    // unassigned opcode 0x3
    assert_eq!(FrameHead::decode(&[0x83, 0x00]), Err(FrameError::IllegalOpCode));
    // extended length announced but missing
    assert_eq!(FrameHead::decode(&[0x82, 0x7e, 0x01]), Err(FrameError::NotEnoughData));
    assert_eq!(FrameHead::decode(&[0x82, 0x7f, 0, 0, 0, 0]), Err(FrameError::NotEnoughData));
    // mask announced but key missing
    assert_eq!(FrameHead::decode(&[0x82, 0x81, 0x01]), Err(FrameError::NotEnoughData));
    // a buffer too short to encode into
    let head = FrameHead::new(Fin::Y, OpCode::Binary, Mask::Plain, PayloadLen::from_num(1));
    let mut tiny = vec![0u8; 1];
    assert_eq!(head.encode(&mut tiny), Err(FrameError::NotEnoughCapacity));
}
