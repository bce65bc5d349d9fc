use ccsds::cmd::filter::{filter_groups, filter_packets};
use ccsds::cmd::frames::{frame_aos, frames_of};
use ccsds::cmd::info::summarize;
use ccsds::framing::packets::demux_packets;
use ccsds::framing::{Frame, Integrity};
use ccsds::spacepacket::merge::{group_pointers, merge_index, merged_bytes, Merger, Ptr};
use ccsds::spacepacket::{collect_groups, decode_packets, Packet, PacketGroup};

/// An 8-byte frame of spacecraft 157 on channel `vcid`, its last byte `tag`.
fn frame(vcid: u16, integrity: Option<Integrity>, tag: u8) -> Frame {
    let b0 = 0x40 | ((157u16 >> 2) as u8);
    let b1 = (((157u16 & 0x3) << 6) as u8) | vcid as u8;
    let mut f = Frame::decode(vec![b0, b1, 0, 0, 1, 0, 0, tag]).unwrap();
    f.integrity = integrity;
    f
}

/// A packet with 1 byte of user data.
fn packet(apid: u16, flags: u8, seq: u16, byte: u8, secondary: bool) -> Vec<u8> {
    let w1 = (apid & 0x7ff) | if secondary { 0x0800 } else { 0 };
    let w2 = ((flags as u16) << 14) | (seq & 0x3fff);
    vec![(w1 >> 8) as u8, w1 as u8, (w2 >> 8) as u8, w2 as u8, 0, 0, byte]
}

#[test]
fn frame_aos_counts_selected_frames_and_writes_good_ones() {
    let frames = vec![
        frame(16, Some(Integrity::NoErrors), 1),
        frame(63, None, 2),
        frame(5, Some(Integrity::Uncorrectable), 3),
        frame(16, Some(Integrity::Corrected), 4),
        frame(7, None, 5),
    ];
    let (s, out) = frame_aos(frames, 8, false, &[], &[7]);
    // the fill frame is not kept, channel 7 is excluded
    assert_eq!(s.total.total_frames, 3);
    assert_eq!(s.total.total_bytes, 24);
    assert_eq!(s.total.ok, 1);
    assert_eq!(s.total.corrected, 1);
    assert_eq!(s.total.uncorrectable, 1);
    let chans: Vec<(u16, usize)> = s.vcids.iter().map(|i| (i.vcid, i.total_frames)).collect();
    assert_eq!(chans, vec![(5, 1), (16, 2)]);
    // the uncorrectable frame is counted but not written
    assert_eq!(out.len(), 16);
    assert_eq!(out[7], 1);
    assert_eq!(out[15], 4);
    // only the first `length` bytes of each frame are written
    // the totals are the sums over the channels
    let sum = |f: fn(&ccsds::cmd::frames::Info) -> usize| s.vcids.iter().map(f).sum::<usize>();
    assert_eq!(sum(|i| i.total_frames), s.total.total_frames);
    assert_eq!(sum(|i| i.total_bytes), s.total.total_bytes);
    assert_eq!(sum(|i| i.uncorrectable), s.total.uncorrectable);
    let (_, short) = frame_aos(vec![frame(16, None, 9)], 6, true, &[16], &[]);
    assert_eq!(short.len(), 6);
}

#[test]
fn frames_of_splits_into_frame_length_chunks() {
    let mut data = Vec::new();
    for tag in 0..3u8 {
        data.extend_from_slice(&frame(16, None, tag).data);
    }
    data.extend_from_slice(&[1, 2, 3]);
    let frames = frames_of(&data, 8);
    assert_eq!(frames.len(), 3);
    assert_eq!(frames[2].data[7], 2);
    assert_eq!(frames[0].header.vcid, 16);
    assert_eq!(frames[0].header.scid, 157);
    // frames shorter than a header give none
    assert!(frames_of(&data, 5).is_empty());
    assert!(frames_of(&data, 0).is_empty());
}

#[test]
fn summarize_counts_each_packet_with_its_time() {
    let mut data = Vec::new();
    data.extend(packet(1, 3, 1, 0, true));
    data.extend(packet(1, 3, 4, 0, true));
    data.extend(packet(2, 3, 0, 0, false));
    let packets = decode_packets(&data);
    let info = summarize(&packets, &[Some(50), Some(20), Some(7)]);
    assert_eq!(info.summary.total_packets, 3);
    assert_eq!(info.summary.missing_packets, 2);
    assert_eq!(info.summary.first_packet_time, Some(20));
    assert_eq!(info.summary.last_packet_time, Some(50));
    // apid 2 has no secondary header, so its time is not used
    assert_eq!(info.apids[&2].first_packet_time, None);
    assert_eq!(info.last_seqid[&1], 4);
    // the counts over all apids are the sums of the counts of each apid
    let total: usize = info.apids.values().map(|s| s.total_packets).sum();
    let missing: usize = info.apids.values().map(|s| s.missing_packets).sum();
    assert_eq!(total, info.summary.total_packets);
    assert_eq!(missing, info.summary.missing_packets);
}

#[test]
fn filter_packets_and_groups() {
    let mut data = Vec::new();
    data.extend(packet(1, 3, 1, 0xa, true));
    data.extend(packet(2, 3, 1, 0xb, true));
    data.extend(packet(1, 1, 2, 0xc, true));
    data.extend(packet(1, 2, 3, 0xd, true));
    let packets = decode_packets(&data);
    let out = filter_packets(&packets, &[1], &[], None, None);
    assert_eq!(out.len(), 21);
    assert_eq!(out[6], 0xa);
    assert!(filter_packets(&packets, &[], &[1, 2], None, None).is_empty());
    let groups = collect_groups(packets);
    assert_eq!(groups.len(), 3);
    // a group whose time is not known is dropped; `after` drops groups before it
    let out = filter_groups(&groups, &[Some(10), Some(20), Some(30)], &[], &[], None, Some(15));
    assert_eq!(out.len(), 21);
    assert_eq!(out[6], 0xb);
    assert_eq!(out[20], 0xd);
    let out = filter_groups(&groups, &[Some(10), None, Some(30)], &[], &[], Some(40), None);
    assert_eq!(out.len(), 21);
    assert_eq!(out[13], 0xc);
}

#[test]
fn merge_pointers_and_bytes() {
    let mut a = Vec::new();
    a.extend(packet(3, 3, 1, 0xa, true));
    a.extend(packet(4, 1, 1, 0xb, true));
    a.extend(packet(4, 2, 2, 0xc, true));
    let mut b = Vec::new();
    b.extend(packet(3, 3, 1, 0xa, true));
    b.extend(packet(5, 0, 9, 0xe, true));
    let ga: Vec<PacketGroup> = collect_groups(decode_packets(&a));
    let gb: Vec<PacketGroup> = collect_groups(decode_packets(&b));
    let mut cands = group_pointers(&ga, 0, &[20, 10]);
    assert_eq!(cands.len(), 2);
    assert_eq!(cands[1].size, 14);
    assert_eq!(cands[1].offset, 7);
    // a group that begins with a continuing packet is no candidate
    let from_b = group_pointers(&gb, 1, &[20, 5]);
    assert_eq!(from_b.len(), 1);
    cands.extend(from_b);
    let index: Vec<Ptr> = merge_index(cands, &[], 0, 100, &[]);
    assert_eq!(index.len(), 2);
    let out = merged_bytes(&vec![a.clone(), b.clone()], &index).unwrap();
    assert_eq!(out.len(), 21);
    assert_eq!(out[6], 0xb);
    assert_eq!(out[20], 0xa);
    let mut bad = index[0];
    bad.offset = 100;
    assert!(merged_bytes(&vec![a.clone(), b.clone()], &[bad]).is_err());
    bad.file = 7;
    assert!(merged_bytes(&vec![a, b], &[bad]).is_err());
}

#[test]
fn demux_packets_drains_all_runs() {
    let body = |counter: u8, fhp: u16, payload: &[u8]| {
        let mut dat = vec![0x67, 0x50, 0x00, 0x00, counter, 0x00, (fhp >> 8) as u8, fhp as u8];
        dat.extend_from_slice(payload);
        Frame::decode(dat).unwrap()
    };
    let p1 = packet(100, 3, 1, 1, false);
    let p2 = packet(100, 3, 2, 2, false);
    let p3 = packet(100, 3, 3, 3, false);
    let mut first = p1.clone();
    first.extend(&p2);
    let f1 = body(1, 0, &first);
    let f2 = body(2, 0, &p3);
    let packets: Vec<Packet> = demux_packets(vec![f1, f2], 0, false, false, false);
    let datas: Vec<Vec<u8>> = packets.iter().map(|p| p.data.clone()).collect();
    assert_eq!(datas, vec![p1, p2, p3]);
    assert_eq!(packets[2].header.sequence_id, 3);
}

#[test]
fn merger_builds_and_merges() {
    let mut a = Vec::new();
    a.extend(packet(3, 3, 1, 0xa, true));
    a.extend(packet(4, 1, 1, 0xb, true));
    a.extend(packet(4, 2, 2, 0xc, true));
    let mut b = Vec::new();
    b.extend(packet(3, 3, 1, 0xa, true));
    b.extend(packet(5, 3, 9, 0xe, true));
    let groups = vec![collect_groups(decode_packets(&a)), collect_groups(decode_packets(&b))];
    let files = vec![a, b];
    let times = vec![vec![20, 10], vec![20, 20]];
    let all = Merger::new().merge(&files, &groups, &times).unwrap();
    // apid 4 at time 10, then apids 3 and 5 at time 20; the copy of apid 3 is dropped
    assert_eq!(all.len(), 28);
    assert_eq!(all[13], 0xc);
    assert_eq!(all[20], 0xa);
    assert_eq!(all[27], 0xe);
    // apid 5 before apid 3 at the same time
    let ordered = Merger::new().with_apid_order(&[5]).merge(&files, &groups, &times).unwrap();
    assert_eq!(ordered[20], 0xe);
    assert_eq!(ordered[27], 0xa);
    // times are given in microseconds; the groups are at 10 and 20 nanoseconds
    assert!(Merger::new().with_from(1).merge(&files, &groups, &times).unwrap().is_empty());
    assert!(Merger::new().with_to(0).merge(&files, &groups, &times).unwrap().is_empty());
    let only4 = Merger::new().with_apids(&[4]).merge(&files, &groups, &times).unwrap();
    assert_eq!(only4.len(), 14);
}
