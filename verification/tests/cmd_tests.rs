use ccsds::cmd::diff::{diff_packets, packet_key};
use ccsds::cmd::filter::{
    filter_keeps, filters_given, group_bytes, parse_number_ranges, RangeError, MAX_STAMP,
};
use ccsds::cmd::frames::{aos_pipeline, frame_selected, frame_written, Summary as FrameSummary};
use ccsds::cmd::info::{duration, PacketInfo};
use ccsds::cmd::{join, left_pad, right_pad, TCFormat};
use ccsds::framing::{Frame, Integrity};
use ccsds::spacepacket::{Packet, PacketGroup};

fn packet(apid: u16, seq: u16, byte: u8) -> Packet {
    let data = vec![(apid >> 8) as u8, apid as u8, 0xc0 | (seq >> 8) as u8, seq as u8, 0, 0, byte];
    Packet::decode(&data).unwrap()
}

#[test]
fn padding_and_joining() {
    assert_eq!(left_pad(6, "157"), "   157");
    assert_eq!(right_pad(6, "snpp"), "snpp  ");
    assert_eq!(left_pad(2, "1234"), "1234");
    assert_eq!(join(&vec!["npp".to_string(), "suomi".to_string()], ", "), "npp, suomi");
    assert_eq!(join(&vec![], ", "), "");
    assert_eq!(TCFormat::Cds.name(), "cds");
    assert_eq!(TCFormat::value_variants(), vec![TCFormat::Cds, TCFormat::NoFormat]);
}

#[test]
fn number_ranges() {
    let list = vec!["1".to_string(), "3-5".to_string(), "9".to_string()];
    assert_eq!(parse_number_ranges(list), Ok(vec![1, 3, 4, 5, 9]));
    assert_eq!(parse_number_ranges(vec!["5-3".to_string()]), Err(RangeError::InvalidRange));
    assert_eq!(parse_number_ranges(vec!["5-5".to_string()]), Err(RangeError::InvalidRange));
    assert_eq!(parse_number_ranges(vec!["a".to_string()]), Err(RangeError::InvalidRange));
    assert_eq!(parse_number_ranges(vec!["-3".to_string()]), Err(RangeError::InvalidRange));
    assert_eq!(parse_number_ranges(vec!["99999999999".to_string()]), Err(RangeError::InvalidNumber));
    assert_eq!(
        parse_number_ranges(vec!["1-99999999999".to_string()]),
        Err(RangeError::InvalidRangeValue)
    );
    assert_eq!(parse_number_ranges(vec![]), Ok(vec![]));
}

#[test]
fn filter_decisions() {
    assert!(!filters_given(&[], &[], None, None));
    assert!(filters_given(&[1], &[], None, None));
    assert!(filter_keeps(1, 10, &[1], &[], None, None));
    assert!(!filter_keeps(2, 10, &[1], &[], None, None));
    assert!(!filter_keeps(1, 10, &[], &[1], None, None));
    // before excludes times at or after it, after excludes times before it
    assert!(!filter_keeps(1, 10, &[], &[], Some(10), None));
    assert!(filter_keeps(1, 9, &[], &[], Some(10), None));
    assert!(!filter_keeps(1, 4, &[], &[], None, Some(5)));
    assert!(filter_keeps(1, 5, &[], &[], Some(10), Some(5)));
    assert!(!filter_keeps(1, MAX_STAMP, &[], &[], None, None));
    let g = PacketGroup { apid: 1, packets: vec![packet(1, 1, 7), packet(1, 2, 8)] };
    assert_eq!(group_bytes(&g).len(), 14);
}

#[test]
fn diff_counts_and_left_only_keys() {
    let left = vec![packet(1, 1, 0xa), packet(1, 2, 0xb), packet(2, 1, 0xc)];
    let right = vec![packet(1, 1, 0xa), packet(2, 1, 0xd)];
    let d = diff_packets(&left, &right).unwrap();
    assert_eq!(d.counts, vec![(1, 2, 1), (2, 1, 1)]);
    assert!(d.mismatch());
    let left_only: Vec<(u16, u16)> = d.left_only.iter().map(|k| (k.0, k.1)).collect();
    assert_eq!(left_only, vec![(1, 2), (2, 1)]);
    // the checksum tells packets of the same apid and sequence id apart
    let crc = crc::Crc::<u32>::new(&crc::CRC_32_ISO_HDLC);
    assert_eq!(d.left_only[1].2, crc.checksum(&[0xc]));
    assert!(diff_packets(&[], &[]).is_err());
    let same = diff_packets(&left, &left).unwrap();
    assert!(!same.mismatch());
    assert!(same.left_only.is_empty());
}

fn frame(vcid: u16, integrity: Option<Integrity>) -> Frame {
    let b0 = 0x40 | ((157u16 >> 2) as u8);
    let b1 = (((157u16 & 0x3) << 6) as u8) | vcid as u8;
    let mut f = Frame::decode(vec![b0, b1, 0, 0, 1, 0, 0, 0]).unwrap();
    f.integrity = integrity;
    f
}

#[test]
fn frame_statistics() {
    let mut s = FrameSummary::new();
    s.add(&frame(16, Some(Integrity::NoErrors)));
    s.add(&frame(5, Some(Integrity::Corrected)));
    s.add(&frame(16, None));
    s.add(&frame(16, Some(Integrity::Uncorrectable)));
    assert_eq!(s.total.total_frames, 4);
    assert_eq!(s.total.ok, 1);
    assert_eq!(s.total.corrected, 1);
    assert_eq!(s.total.uncorrectable, 1);
    assert_eq!(s.total.not_performed, 1);
    let vcids: Vec<(u16, usize)> = s.vcids.iter().map(|i| (i.vcid, i.total_frames)).collect();
    assert_eq!(vcids, vec![(5, 1), (16, 3)]);
    assert!(!frame_written(&frame(16, Some(Integrity::Failed))));
    assert!(frame_written(&frame(16, Some(Integrity::Skipped))));
    assert!(!frame_selected(&frame(63, None), false, &[], &[]));
    assert!(frame_selected(&frame(63, None), true, &[], &[]));
    assert!(!frame_selected(&frame(16, None), false, &[5], &[]));
    assert!(!frame_selected(&frame(16, None), false, &[], &[16]));
}

#[test]
fn aos_pipeline_adds_parity_to_block_length() {
    let p = aos_pipeline(892, true, Some(4), false, true, 0, None, 10);
    let _ = p;
    let mut q = aos_pipeline(892, false, None, false, false, 0, None, 10);
    // without Reed-Solomon the blocks are the frames
    let out = q.start(vec![]);
    assert!(out.is_empty());
}

#[test]
fn packet_info_statistics() {
    let timed = |apid: u16, seq: u16| {
        let data = vec![0x08 | (apid >> 8) as u8, apid as u8, 0xc0 | (seq >> 8) as u8, seq as u8, 0, 0, 0];
        Packet::decode(&data).unwrap()
    };
    let mut info = PacketInfo::new();
    info.add(&timed(1, 1), Some(50));
    info.add(&timed(1, 4), Some(20));
    info.add(&timed(2, 0), None);
    // without a secondary header a packet's time is not used
    info.add(&packet(3, 0, 0), Some(1));
    assert_eq!(info.summary.total_packets, 4);
    assert_eq!(info.summary.missing_packets, 2);
    assert_eq!(info.summary.first_packet_time, Some(20));
    assert_eq!(info.summary.last_packet_time, Some(50));
    assert_eq!(duration(&info.summary), Some(30));
    assert_eq!(info.apids[&2].first_packet_time, None);
}

#[test]
fn diff_reports_keys_on_either_side_only() {
    let left = vec![packet(1, 1, 0xa)];
    let right = vec![packet(1, 1, 0xa), packet(2, 5, 0xb)];
    let d = diff_packets(&left, &right).unwrap();
    assert!(d.left_only.is_empty());
    let right_only: Vec<(u16, u16)> = d.right_only.iter().map(|k| (k.0, k.1)).collect();
    assert_eq!(right_only, vec![(2, 5)]);
}

#[test]
fn diff_counts_each_unmatched_copy() {
    let left = vec![packet(3, 7, 0xe), packet(3, 7, 0xe)];
    let d = diff_packets(&left, &[]).unwrap();
    assert_eq!(d.left_only.len(), 2);
    assert!(d.right_only.is_empty());
    let d = diff_packets(&left, &[packet(3, 7, 0xe)]).unwrap();
    assert_eq!(d.left_only.len(), 1);
    assert_eq!((d.left_only[0].0, d.left_only[0].1), (3, 7));
    let d = diff_packets(&[packet(3, 7, 0xe)], &left).unwrap();
    assert!(d.left_only.is_empty());
    assert_eq!(d.right_only.len(), 1);
}

#[test]
fn packet_key_checksums_the_user_data() {
    let mut data = vec![0x00, 0x05, 0xc0, 0x09, 0x00, 0x08];
    data.extend_from_slice(b"123456789");
    let p = Packet::decode(&data).unwrap();
    // the check value of CRC-32/ISO-HDLC
    assert_eq!(packet_key(&p), (5, 9, 0xcbf4_3926));
}
