use ccsds::bytes::Bytes;

#[test]
fn test() {
    let dat = [0, 1, 2, 3, 4, 5, 6, 7, 8, 9];
    let mut bytes = Bytes::new(dat.to_vec());

    let b = bytes
        .next()
        .expect("Should have produced a byte for first call to next");
    assert_eq!(b, 0, "first byte has bad value");
    assert_eq!(bytes.offset(), 1);

    let b = bytes
        .next()
        .expect("Should have produced a byte after second call to next");
    assert_eq!(b, 1, "second byte has bad value");
    assert_eq!(bytes.offset(), 2);

    bytes.push(&[b]);
    assert_eq!(bytes.cache(), [1]);
    assert_eq!(bytes.offset(), 1);

    let b = bytes
        .next()
        .expect("Should have produced a byte after third call to next");
    assert_eq!(
        b, 1,
        "Byte should be the same as second call to next following a push"
    );
    assert_eq!(bytes.offset(), 2);
    assert_eq!(bytes.cache().len(), 0);

    let buf = &mut vec![0u8; 3][..];
    bytes.fill(buf).expect("read_exact should not have failed");
    assert_eq!(bytes.cache().len(), 0);
    assert_eq!(bytes.offset(), 5);
    assert_eq!(buf, [2, 3, 4]);
}

#[test]
fn read_exact_with_no_cache() {
    let dat = [1, 2, 3, 4, 5, 6];
    let mut bytes = Bytes::new(dat.to_vec());

    let buf = &mut vec![0u8; 3][..];
    bytes.fill(buf).expect("read_exact should not have failed");
    assert_eq!(buf, [1, 2, 3]);
    assert_eq!(bytes.num_read(), 3);
    assert_eq!(bytes.offset(), 3);
}

#[test]
fn read_exact_cache_does_not_contain_enough_bytes_to_fill_buff() {
    let dat = [1, 2, 3, 4, 5, 6];
    let mut bytes = Bytes::new(dat.to_vec());

    // Read some bytes
    let buf = &mut vec![0u8; 3][..];
    bytes.fill(buf).expect("read_exact should not have failed");
    assert_eq!(buf, [1, 2, 3]);
    assert_eq!(bytes.num_read(), 3);
    assert_eq!(bytes.offset(), 3);

    // Put those bytes back to cache them
    bytes.push(buf);
    assert_eq!(bytes.num_read(), 3, "should have still only read 3 bytes");
    assert_eq!(
        bytes.offset(),
        0,
        "but the offset should be num_read - cache.len"
    );

    // Read again, which should produce bytes from cache + 1 read byte
    let buf = &mut vec![0u8; 4][..];
    bytes.fill(buf).expect("read_exact should not have failed");
    assert_eq!(buf, [1, 2, 3, 4]);
    assert_eq!(bytes.num_read(), 4);
    assert_eq!(bytes.offset(), 4);
}

#[test]
fn fill_returns_true_when_not_eof() {
    let dat: Vec<u8> = vec![1, 2, 3, 4, 5];
    let mut bytes = Bytes::new(dat.clone());

    let buf = &mut vec![0u8; 3][..];
    let more = bytes.fill(buf).expect("should not fail");
    assert!(more, "more should be true when not EOF");
}

#[test]
fn fill_returns_false_when_eof() {
    let dat: Vec<u8> = vec![];
    let mut bytes = Bytes::new(dat.clone());

    let buf = &mut vec![0u8; 3][..];
    let more = bytes.fill(buf).expect("should not fail");
    assert!(!more, "more should be false when EOF");
}

#[test]
fn read_exact_cache_contains_enough_bytes_to_fill_buff() {
    let dat = [1, 2, 3, 4, 5, 6];
    let mut bytes = Bytes::new(dat.to_vec());

    let buf = &mut vec![0u8; 3][..];
    bytes.fill(buf).expect("read_exact should not have failed");
    assert_eq!(buf, [1, 2, 3]);
    assert_eq!(bytes.offset(), 3);

    // Put those bytes back to cache them
    bytes.push(buf);
    assert_eq!(bytes.offset(), 0);

    // Read again, which should product bytes from cache
    bytes.fill(buf).expect("read_exact should not have failed");
    assert_eq!(buf, [1, 2, 3]);
    assert_eq!(bytes.offset(), 3);
}

#[test]
fn next_fails_at_end_of_stream() {
    let mut bytes = Bytes::new(vec![7]);
    assert_eq!(bytes.next().unwrap(), 7);
    assert!(matches!(bytes.next(), Err(ccsds::Error::UnexpectedEof)));
    assert_eq!(bytes.offset(), 1);
}

#[test]
fn pushed_bytes_come_back_in_their_order() {
    let mut bytes = Bytes::new(vec![9]);
    bytes.push(&[1, 2]);
    assert_eq!(bytes.next().unwrap(), 1);
    assert_eq!(bytes.next().unwrap(), 2);
    assert_eq!(bytes.next().unwrap(), 9);
    // bytes pushed later come back before those pushed earlier
    let mut bytes = Bytes::new(vec![9]);
    bytes.push(&[3]);
    bytes.push(&[1, 2]);
    let mut buf = [0u8; 4];
    assert!(bytes.fill(&mut buf).unwrap());
    assert_eq!(buf, [1, 2, 3, 9]);
}

#[test]
fn fill_with_short_cache_and_short_stream_fails() {
    let mut bytes = Bytes::new(vec![1, 2]);
    let buf = &mut vec![0u8; 2][..];
    bytes.fill(buf).unwrap();
    bytes.push(&[5]);
    let buf = &mut vec![0u8; 3][..];
    assert!(matches!(bytes.fill(buf), Err(ccsds::Error::UnexpectedEof)));
}
