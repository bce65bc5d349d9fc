use ccsds::framing::{
    derandomize, frame_decoder, packet_decoder, read_synchronized_blocks, reed_solomon,
    synchronize, Frame, Integrity, PacketDemux, Pipeline, RsOpts, SyncOpts, ASM,
};

/// A frame of vcid 16 with the given counter and MPDU first-header pointer and payload.
fn frame(counter: u8, fhp: u16, payload: &[u8]) -> Frame {
    let mut dat = vec![0x67, 0x50, 0x00, 0x00, counter, 0x00];
    dat.push((fhp >> 8) as u8);
    dat.push(fhp as u8);
    dat.extend_from_slice(payload);
    Frame::decode(dat).unwrap()
}

/// A packet of the given apid and sequence id with `n` bytes of user data.
fn packet_bytes(apid: u16, seq: u16, n: usize) -> Vec<u8> {
    let len = (n - 1) as u16;
    let mut p = vec![(apid >> 8) as u8, apid as u8, 0xc0 | (seq >> 8) as u8, seq as u8];
    p.push((len >> 8) as u8);
    p.push(len as u8);
    p.extend(std::iter::repeat(0x5a).take(n));
    p
}

#[test]
fn demux_packet_spanning_frames() {
    let p1 = packet_bytes(100, 1, 10); // 16 bytes
    let p2 = packet_bytes(100, 2, 10);
    let mut stream = p1.clone();
    stream.extend(&p2);
    // first frame holds 12 bytes, second the remaining 20
    let f1 = frame(1, 0, &stream[..12]);
    let f2 = frame(2, 0x7ff, &stream[12..]);
    let mut demux = PacketDemux::new(vec![f1, f2]).with_defaults(0, false, false, false);
    let a = demux.next().unwrap();
    assert_eq!(a.data, p1);
    assert_eq!(a.header.sequence_id, 1);
    let b = demux.next().unwrap();
    assert_eq!(b.data, p2);
    assert!(demux.next().is_none());
}

#[test]
fn demux_skips_to_first_header_pointer() {
    let p1 = packet_bytes(100, 1, 4);
    let mut payload = vec![0xee, 0xee, 0xee]; // tail of an earlier packet
    payload.extend(&p1);
    let f = frame(1, 3, &payload);
    let mut demux = packet_decoder(vec![f], 0, 0);
    assert_eq!(demux.next().unwrap().data, p1);
    assert!(demux.next().is_none());
}

#[test]
fn demux_drops_data_after_uncorrectable_frame() {
    let p1 = packet_bytes(100, 1, 10);
    let f1 = frame(1, 0, &p1[..12]);
    let mut f2 = frame(2, 0x7ff, &p1[12..]);
    f2.integrity = Some(Integrity::Uncorrectable);
    let mut demux = PacketDemux::new(vec![f1, f2]).with_defaults(0, false, false, false);
    assert!(demux.next().is_none());
}

#[test]
fn demux_without_config_yields_nothing() {
    let p1 = packet_bytes(100, 1, 4);
    let mut demux = PacketDemux::new(vec![frame(1, 0, &p1)]);
    assert!(demux.next().is_none());
}

#[test]
fn demux_with_trailer_and_channel_config() {
    let p1 = packet_bytes(7, 1, 4);
    let mut payload = p1.clone();
    payload.extend(&[1, 2, 3, 4, 5, 6]); // OCF and FEC
    let f = frame(1, 0, &payload);
    let mut demux = PacketDemux::new(vec![f]).with_channel_config(16, 0, false, true, true);
    assert_eq!(demux.next().unwrap().data, p1);
}

#[test]
fn pipeline_decodes_synchronized_frames() {
    // two blocks of 12 bytes, each after the standard marker
    let mut stream = vec![0x00];
    for counter in 1..=2u8 {
        stream.extend_from_slice(&ASM);
        let mut block = vec![0x67, 0x50, 0x00, 0x00, counter, 0x00, 0x07, 0xff];
        block.extend([0u8; 4]);
        stream.extend(block);
    }
    let blocks = read_synchronized_blocks(stream.clone(), &ASM, 12);
    assert_eq!(blocks.len(), 2);
    assert_eq!(synchronize(stream.clone(), SyncOpts::new(12)), blocks);

    let frames = frame_decoder(blocks.clone());
    assert_eq!(frames.len(), 2);
    assert_eq!(frames[1].header.counter, 2);
    assert_eq!(frames[1].missing, 0);

    let mut pipeline = Pipeline::new(12).without_derandomization();
    let out = pipeline.start(stream);
    assert_eq!(out.len(), 2);
    assert_eq!(out[0].data, blocks[0]);

    // derandomized blocks differ from the input, and derandomizing twice restores it
    let twice = derandomize(derandomize(blocks.clone()));
    assert_eq!(twice, blocks);
    assert_ne!(derandomize(blocks.clone()), blocks);
}

#[test]
fn frame_decoder_stops_at_short_block() {
    let mut a = vec![0x67, 0x50, 0x00, 0x00, 0x01, 0x00];
    a.resize(10, 0);
    let mut c = vec![0x67, 0x50, 0x00, 0x00, 0x05, 0x00];
    c.resize(10, 0);
    let frames = frame_decoder(vec![a.clone(), vec![1, 2], c.clone()]);
    assert_eq!(frames.len(), 1);
    let frames = frame_decoder(vec![a, c]);
    assert_eq!(frames[1].missing, 3);
}

#[test]
fn reed_solomon_stage_marks_integrity() {
    // a zero code block is a valid code word
    let frames = vec![Frame::decode(vec![0u8; 1020]).unwrap()];
    let out = reed_solomon(frames, RsOpts::new(4));
    assert_eq!(out.len(), 1);
    assert_eq!(out[0].integrity, Some(Integrity::NoErrors));
    assert_eq!(out[0].data.len(), 892);
}

#[test]
fn pipeline_tells_when_it_can_start() {
    // a frame of vcid 16, counter 0xffffff, then one of counter 1: the missing count
    // after the largest counter cannot be computed
    let mut data = Vec::new();
    for counter in [[0xffu8, 0xff, 0xff], [0, 0, 1]] {
        data.extend_from_slice(&ASM);
        data.extend_from_slice(&[0x67, 0x50, counter[0], counter[1], counter[2], 0, 0, 0]);
    }
    let p = Pipeline::new(8).without_derandomization();
    assert!(!p.can_start_on(&data));
    let mut ok = Vec::new();
    for counter in [[0u8, 0, 1], [0, 0, 2]] {
        ok.extend_from_slice(&ASM);
        ok.extend_from_slice(&[0x67, 0x50, counter[0], counter[1], counter[2], 0, 0, 0]);
    }
    assert!(p.can_start_on(&ok));
    // with Reed-Solomon the blocks must be whole code blocks
    let rs = Pipeline::new(8).without_derandomization().with_rs(RsOpts::new(1));
    assert!(!rs.can_start_on(&ok));
    assert!(Pipeline::new(8).can_start_on(&vec![]));
}
