use lightws::store::Store;

#[test]
fn unsafe_store() {
    let mut store = Store::<14>::new_with_data(b"Hello, ");
    assert_eq!(store.read(), b"Hello, ".to_vec());
    store.push_bytes(b"World!!");
    assert_eq!(store.read(), b"Hello, World!!".to_vec());
    store.advance_rd_pos(7);
    assert_eq!(store.read(), b"World!!".to_vec());

    store.reset();
    assert_eq!(store.read(), Vec::<u8>::new());

    store.replace_with_data(b"hello, world!!");
    assert_eq!(store.read(), b"hello, world!!".to_vec());
    store.advance_rd_pos(7);
    assert_eq!(store.read(), b"world!!".to_vec());

    store.reset();
    assert_eq!(store.read(), Vec::<u8>::new());
}

#[test]
fn store_cursors() {
    let mut store = Store::<14>::new();
    assert!(store.is_empty());
    assert_eq!(store.rd_left(), 0);
    assert_eq!(store.wr_left(), 14);

    store.push_bytes(b"abc");
    assert!(!store.is_empty());
    assert_eq!(store.rd_pos(), 0);
    assert_eq!(store.wr_pos(), 3);
    assert_eq!(store.rd_left(), 3);
    assert_eq!(store.wr_left(), 11);
    assert_eq!(store.get(1), b'b');

    store.advance_rd_pos(1);
    assert_eq!(store.rd_left(), 2);
    store.advance_wr_pos(1);
    assert_eq!(store.wr_pos(), 4);
    store.set_rd_pos(0);
    store.set_wr_pos(3);
    assert_eq!(store.read(), b"abc".to_vec());
}
