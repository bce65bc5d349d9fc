use ccsds::spacepacket::merge::{group_pointer, merge_index, merge_order, Ptr};
use ccsds::spacepacket::{
    collect_groups, decode_packets, missing_packets, Packet, PacketGroup, PacketGroupIter,
    PrimaryHeader, Summary,
};

#[test]
fn test_decode_packet() {
    let dat: [u8; 15] = [
        // Primary/secondary header and a single byte of user data
        0xd, 0x59, 0xd2, 0xab, 0x0, 0x8, 0x52, 0xc0, 0x0, 0x0, 0x0, 0xa7, 0x0, 0xdb, 0xff,
    ];
    let packet = Packet::decode(&dat).unwrap();

    assert_eq!(packet.header.version, 0);
}

#[test]
fn test_decode_header() {
    let dat: [u8; 6] = [
        // bytes from a SNPP CrIS packet
        0xd, 0x59, 0xd2, 0xab, 0xa, 0x8f,
    ];
    let ph = PrimaryHeader::decode(&dat).unwrap();

    assert_eq!(ph.version, 0);
    assert_eq!(ph.type_flag, 0);
    assert!(ph.has_secondary_header);
    assert_eq!(ph.apid, 1369);
    assert_eq!(ph.sequence_flags, 3);
    assert_eq!(ph.sequence_id, 4779);
    assert_eq!(ph.len_minus1, 2703);
}

#[test]
fn packet_iter_test() {
    let dat: &[u8] = &[
        // Primary/secondary header and a single byte of user data
        // byte 4 is sequence number 1 & 2
        0xd, 0x59, 0xc0, 0x01, 0x0, 0x8, 0x52, 0xc0, 0x0, 0x0, 0x0, 0xa7, 0x0, 0xdb, 0xff,
        0xd, 0x59, 0xc0, 0x02, 0x0, 0x8, 0x52, 0xc0, 0x0, 0x0, 0x0, 0xa7, 0x0, 0xdb, 0xff,
    ];

    let mut summary = Summary::default();
    let packets: Vec<Packet> = decode_packets(dat);
    for p in &packets {
        summary.add(p);
    }

    assert_eq!(packets.len(), 2);
    assert_eq!(packets[0].header.apid, 1369);
    assert_eq!(packets[0].header.sequence_id, 1);
    assert_eq!(&packets[0].data[..], &dat[..15]);
    assert_eq!(packets[1].header.sequence_id, 2);
    assert_eq!(&packets[1].data[..], &dat[15..]);
}

#[test]
fn test_missing_packets() {
    assert_eq!(missing_packets(5, 4), 0);
    assert_eq!(missing_packets(5, 3), 1);
    assert_eq!(missing_packets(0, PrimaryHeader::SEQ_MAX), 0);
    assert_eq!(missing_packets(0, PrimaryHeader::SEQ_MAX - 1), 1);
    assert_eq!(missing_packets(0, 0), PrimaryHeader::SEQ_MAX);
}

#[test]
fn summary() {
    let dat: &[u8] = &[
        // Primary/secondary header and a single byte of user data
        // byte 4 is sequence number 1 & 2
        0xd, 0x59, 0xc0, 0x01, 0x0, 0x8, 0x52, 0xc0, 0x0, 0x0, 0x0, 0xa7, 0x0, 0xdb, 0xff,
        0xd, 0x59, 0xc0, 0x02, 0x0, 0x8, 0x52, 0xc0, 0x0, 0x0, 0x0, 0xa7, 0x0, 0xdb, 0xff,
    ];

    let mut summary = Summary::default();
    let packet = Packet::decode(&dat[0..15]).unwrap();
    summary.add(&packet);
    let packet = Packet::decode(&dat[15..]).unwrap();
    summary.add(&packet);

    assert_eq!(summary.count, 2);
    assert_eq!(summary.bytes, 30);
    assert_eq!(summary.missing, 0);
    assert_eq!(summary.apids.len(), 1);
    assert_eq!(summary.apids[&1369].count, 2);
    assert_eq!(summary.apids[&1369].bytes, 30);
    assert_eq!(summary.apids[&1369].missing, 0);
}

fn packet(apid: u16, flags: u8, seq: u16, offset: usize) -> Packet {
    let w1 = apid & 0x7ff;
    let w2 = ((flags as u16) << 14) | (seq & 0x3fff);
    let data = vec![(w1 >> 8) as u8, w1 as u8, (w2 >> 8) as u8, w2 as u8, 0, 0, 0xaa];
    let mut p = Packet::decode(&data).unwrap();
    p.offset = offset;
    p
}

#[test]
fn summary_counts_missing_sequence_ids() {
    let mut summary = Summary::default();
    summary.add(&packet(10, 3, 5, 0));
    summary.add(&packet(10, 3, 8, 7));
    summary.add(&packet(11, 3, 0, 14));
    assert_eq!(summary.count, 3);
    assert_eq!(summary.bytes, 21);
    assert_eq!(summary.missing, 2);
    assert_eq!(summary.apids[&10].missing, 2);
    assert_eq!(summary.apids[&11].count, 1);
    assert_eq!(summary.seen_headers[&10].sequence_id, 8);
    // the counts are the sums over the apids
    assert_eq!(summary.apids.values().map(|a| a.count).sum::<usize>(), summary.count);
    assert_eq!(summary.apids.values().map(|a| a.bytes).sum::<usize>(), summary.bytes);
    assert_eq!(summary.apids.values().map(|a| a.missing).sum::<usize>(), summary.missing);
}

#[test]
fn missing_packets_wraps_around() {
    // the law: for ids in range, missing is (cur - last - 1) mod 16384
    for (cur, last) in [(0u16, 16383u16), (10, 16380), (100, 50), (7, 7), (16383, 0)] {
        let expected = ((cur as i64 - last as i64 - 1).rem_euclid(16384)) as u16;
        assert_eq!(missing_packets(cur, last), expected, "cur={cur} last={last}");
    }
}

#[test]
fn decode_packet_errors() {
    assert!(matches!(
        Packet::decode(&[0u8; 3]),
        Err(ccsds::spacepacket::Error::NotEnoughData { actual: 3, minimum: 6 })
    ));
    // header asks for 9 bytes, 8 given
    let dat = [0x0, 0x1, 0xc0, 0x0, 0x0, 0x2, 0x1, 0x2];
    assert!(matches!(
        Packet::decode(&dat),
        Err(ccsds::spacepacket::Error::NotEnoughData { actual: 8, minimum: 9 })
    ));
}

#[test]
fn decode_packets_drops_trailing_partial_packet() {
    let mut dat = packet(1, 3, 1, 0).data;
    dat.extend(packet(1, 3, 2, 0).data);
    dat.extend(&[0x0, 0x1, 0xc0]);
    let packets = decode_packets(&dat);
    assert_eq!(packets.len(), 2);
    assert_eq!(packets[1].offset, 7);
    assert_eq!(packets[1].header.sequence_id, 2);
}

#[test]
fn groups_follow_sequence_flags_and_apids() {
    let packets = vec![
        packet(5, 3, 1, 0),  // standalone
        packet(6, 1, 2, 7),  // first of a group
        packet(6, 0, 3, 14), // continuation
        packet(6, 2, 4, 21), // last
        packet(7, 2, 9, 28), // a group without its first packet
        packet(8, 3, 1, 35), // standalone of another apid ends it
    ];
    let groups = collect_groups(packets);
    let sizes: Vec<(u16, usize)> = groups.iter().map(|g| (g.apid, g.packets.len())).collect();
    assert_eq!(sizes, vec![(5, 1), (6, 3), (7, 1), (8, 1)]);
    assert!(groups[0].complete());
    assert!(groups[1].complete());
    assert!(!groups[1].have_missing());
    assert!(!groups[2].complete());
}

#[test]
fn group_with_gap_is_not_complete() {
    let g = PacketGroup {
        apid: 6,
        packets: vec![packet(6, 1, 2, 0), packet(6, 0, 4, 7), packet(6, 2, 5, 14)],
    };
    assert!(g.have_missing());
    assert!(!g.complete());
    let empty = PacketGroup { apid: 6, packets: vec![] };
    assert!(!empty.complete());
}

#[test]
fn group_iterator_hands_out_groups_in_order() {
    let mut it = PacketGroupIter::with_packets(vec![packet(1, 1, 0, 0), packet(1, 2, 1, 7), packet(2, 3, 0, 14)]);
    let g1 = it.next().unwrap().unwrap();
    assert_eq!(g1.packets.len(), 2);
    let g2 = it.next().unwrap().unwrap();
    assert_eq!(g2.apid, 2);
    assert!(it.next().is_none());
}

#[test]
fn merge_orders_deduplicates_and_filters() {
    let g = |apid: u16, flags: u8, seq: u16, offset: usize| PacketGroup {
        apid,
        packets: vec![packet(apid, flags, seq, offset)],
    };
    // a group starting with a continuation is not merged
    assert!(group_pointer(&g(3, 0, 1, 0), 0, 10).is_none());
    let a = group_pointer(&g(3, 3, 1, 0), 0, 20).unwrap();
    assert_eq!(a.size, 7);
    let b = group_pointer(&g(4, 3, 1, 7), 0, 10).unwrap();
    let c = group_pointer(&g(5, 3, 1, 14), 0, 20).unwrap();
    // the same group as `a`, from another file
    let a2 = group_pointer(&g(3, 3, 1, 0), 1, 20).unwrap();
    let late = group_pointer(&g(4, 3, 2, 21), 0, 99).unwrap();
    let merged: Vec<Ptr> = merge_index(vec![a, b, c, a2, late], &[5, 3], 0, 50, &[]);
    let order: Vec<(i128, u16)> = merged.iter().map(|p| (p.time, p.apid)).collect();
    // time first, then apid 5 before 3 as `order` lists it; `late` is at or after `to`
    assert_eq!(order, vec![(10, 4), (20, 5), (20, 3)]);
    assert_eq!(merge_order(&[5, 3], 3), 1);
    assert_eq!(merge_order(&[5, 3], 9), 9);
    // only apid 4 wanted
    let only4 = merge_index(vec![a, b, c], &[], 0, 50, &[4]);
    assert_eq!(only4.len(), 1);
    assert_eq!(only4[0].apid, 4);
}

#[test]
fn a_first_packet_starts_a_new_group() {
    let p = |f: u8, s: u8| Packet::decode(&[0x00, 0x01, f, s, 0x00, 0x00, 0xff]).unwrap();
    let ps = vec![p(0x40, 0), p(0x80, 1), p(0x40, 2), p(0x80, 3)];
    let groups = collect_groups(ps);
    assert_eq!(groups.len(), 2);
    for (i, g) in groups.iter().enumerate() {
        assert_eq!(g.apid, 1);
        assert_eq!(g.packets.len(), 2);
        assert!(g.complete());
        assert_eq!(g.packets[0].header.sequence_id, 2 * i as u16);
    }
    // a continuation after the last packet of a group starts a group of its own
    let groups = collect_groups(vec![p(0x40, 0), p(0x80, 1), p(0x00, 2)]);
    assert_eq!(groups.len(), 2);
}
