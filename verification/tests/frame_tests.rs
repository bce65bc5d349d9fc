use ccsds::framing::{missing_frames, Frame, VCDUHeader, MPDU};

#[test]
fn decode_vcduheader() {
    let dat: Vec<u8> = vec![
        0x55, 0x61, // version 1, scid 85, vcid 33
        0x01, 0xe2, 0x40, // counter 123456
        0x05, // replay:false, frame count usage:false, frame-count-cycle:5
        0x01, 0x02, 0x03, // insert zone
        0x04, 0x05, 0x06, 0x07, 0x08, 0x09, 0x0a, 0xaa, // first-header-pointer 682
    ];

    let header = VCDUHeader::decode(&dat).unwrap();

    assert_eq!(header.version, 1);
    assert_eq!(header.scid, 85);
    assert_eq!(header.vcid, 33);
    assert_eq!(header.counter, 123_456);
    assert!(!header.replay);
    assert!(!header.cycle);
    assert_eq!(header.counter_cycle, 5);
}

#[test]
fn decode_vcduheader_minmax() {
    let dat: Vec<u8> = vec![0, 0, 0, 0, 0, 0];

    VCDUHeader::decode(&dat).unwrap();

    let dat: Vec<u8> = vec![0xff, 0xff, 0xff, 0xff, 0xff, 0xff];

    VCDUHeader::decode(&dat).unwrap();
}

#[test]
fn decode_vcduheader_is_err_when_data_too_short() {
    let zult = VCDUHeader::decode(&[0u8; 0]);
    assert!(zult.is_none());
}

#[test]
fn test_missing_frames() {
    assert_eq!(missing_frames(5, 4), 0);
    assert_eq!(missing_frames(5, 3), 1);
    assert_eq!(missing_frames(0, VCDUHeader::COUNTER_MAX), 0);
    assert_eq!(missing_frames(0, VCDUHeader::COUNTER_MAX - 1), 1);
    assert_eq!(missing_frames(0, 0), VCDUHeader::COUNTER_MAX);
}

#[test]
fn decode_frame() {
    let dat: Vec<u8> = vec![
        0x55, 0x61, // version 1, scid 85, vcid 33
        0x01, 0xe2, 0x40, // counter 123456
        0x05, // replay:false, frame count usage:false, frame-count-cycle:5
        0x00, 0x00, 0x00,
    ];
    let expected_len = dat.len();
    let frame = Frame::decode(dat).unwrap();

    assert_eq!(frame.data.len(), expected_len);
}

#[test]
fn test_decode_single_frame() {
    let mut dat: Vec<u8> = vec![
        0x67, 0x50, 0x96, 0x30, 0xbc, 0x80, // VCDU Header
        0x07, 0xff, // MPDU header indicating no header
    ];
    dat.resize(892, 0xff);

    assert_eq!(dat.len(), 892);

    let frame = Frame::decode(dat).unwrap();
    assert_eq!(frame.header.scid, 157);
    assert_eq!(frame.header.vcid, 16);

    let mpdu = frame.mpdu(0, 0).unwrap();
    assert!(!mpdu.is_fill());
    assert!(
        mpdu.header_offset() == MPDU::NO_HEADER as usize,
        "expected {} got {}",
        MPDU::NO_HEADER,
        mpdu.header_offset()
    );
    assert!(!mpdu.has_header());
}

#[test]
fn decode_vcduheader_all_bits() {
    let header = VCDUHeader::decode(&[0xff, 0xff, 0xff, 0xff, 0xff, 0xff]).unwrap();
    assert_eq!(header.version, 3);
    assert_eq!(header.scid, 255);
    assert_eq!(header.vcid, 63);
    assert_eq!(header.counter, 0xff_ffff);
    assert!(header.replay);
    assert!(header.cycle);
    assert_eq!(header.counter_cycle, 0xf);
}

#[test]
fn frame_fill_and_short_frames() {
    assert!(Frame::decode(vec![0u8; 5]).is_none());
    let frame = Frame::decode(vec![0x00, 0x3f, 0, 0, 0, 0, 0x07, 0xfe]).unwrap();
    assert!(frame.is_fill());
    let mpdu = frame.mpdu(0, 0).unwrap();
    assert!(mpdu.is_fill());
    assert_eq!(mpdu.payload().len(), 0);
    // MPDU needs 2 bytes
    assert!(frame.mpdu(1, 0).is_none());
}

#[test]
fn mpdu_payload_and_offset() {
    let frame = Frame::decode(vec![0, 0, 0, 0, 0, 0, 0xaa, 0x12, 0x34, 1, 2, 3, 9, 9]).unwrap();
    // insert zone of 1 byte, trailer of 2 bytes
    let mpdu = frame.mpdu(1, 2).unwrap();
    assert_eq!(mpdu.header_offset(), 0x234);
    assert!(mpdu.has_header());
    assert_eq!(mpdu.payload(), &[1, 2, 3]);
}

#[test]
fn missing_frames_counts_skipped_counters() {
    assert_eq!(missing_frames(10, 3), 6);
    assert_eq!(missing_frames(2, VCDUHeader::COUNTER_MAX - 2), 4);
}

#[test]
fn mpdu_is_none_without_enough_bytes() {
    let f = Frame::decode(vec![0u8; 8]).unwrap();
    assert!(f.mpdu(4, 0).is_none());
    assert!(f.mpdu(0, 9).is_none());
    assert!(f.mpdu(usize::MAX, 1).is_none());
    assert!(f.mpdu(0, 0).is_some());
}
