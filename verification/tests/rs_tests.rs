use ccsds::framing::{
    deinterleave, decode_frames, decode_frames_rs, DefaultReedSolomon, FrameDecoder, Integrity,
    ReedSolomon, VCDUHeader,
};
use ccsds::framing::integrity::{
    DefaultReedSolomon as CheckReedSolomon, Integrity as CheckIntegrity, IntegrityAlgorithm,
};
use ccsds::Error;

// RS message, no pn
const FIXTURE_MSG: &[u8; 255] = &[
        0x67, 0xc4, 0x6b, 0xa7, 0x3e, 0xbe, 0x4c, 0x33, 0x6c, 0xb2, 0x23, 0x3a, 0x74, 0x06, 0x2b,
        0x18, 0xab, 0xb8, 0x09, 0xe6, 0x7d, 0xaf, 0x5d, 0xe5, 0xdf, 0x76, 0x25, 0x3f, 0xb9, 0x14,
        0xee, 0xec, 0xd1, 0xa3, 0x39, 0x5f, 0x38, 0x68, 0xf0, 0x26, 0xa6, 0x8a, 0xcb, 0x09, 0xaf,
        0x4e, 0xf8, 0x93, 0xf7, 0x45, 0x4b, 0x0d, 0xa9, 0xb8, 0x74, 0x0e, 0xf3, 0xc7, 0xed, 0x6e,
        0xa3, 0x0f, 0xf6, 0x79, 0x94, 0x16, 0xe2, 0x7f, 0xad, 0x91, 0x91, 0x04, 0xac, 0xa4, 0xae,
        0xb4, 0x51, 0x76, 0x2f, 0x62, 0x03, 0x5e, 0xa1, 0xe5, 0x5c, 0x45, 0xf8, 0x1f, 0x7a, 0x7b,
        0xe8, 0x35, 0xd8, 0xcc, 0x51, 0x0e, 0xae, 0x3a, 0x2a, 0x64, 0x1d, 0x03, 0x10, 0xcd, 0x18,
        0xe6, 0x7f, 0xef, 0xba, 0xd9, 0xe8, 0x98, 0x47, 0x82, 0x9c, 0xa1, 0x58, 0x47, 0x25, 0xdf,
        0x41, 0xd2, 0x01, 0x62, 0x3c, 0x24, 0x88, 0x90, 0xe9, 0xd7, 0x38, 0x1b, 0xa0, 0xa2, 0xb4,
        0x23, 0xea, 0x7e, 0x58, 0x0d, 0xf4, 0x61, 0x24, 0x14, 0xb0, 0x41, 0x90, 0x0c, 0xb7, 0xbb,
        0x5c, 0x59, 0x1b, 0xc6, 0x69, 0x24, 0x0f, 0xb6, 0x0e, 0x14, 0xa1, 0xb1, 0x8e, 0x48, 0x0f,
        0x17, 0x1d, 0xfb, 0x0f, 0x38, 0x42, 0xe3, 0x24, 0x58, 0xab, 0x82, 0xa8, 0xfd, 0xdf, 0xac,
        0x68, 0x93, 0x3d, 0x0d, 0x8f, 0x50, 0x52, 0x44, 0x6c, 0xba, 0xd3, 0x51, 0x99, 0x9c, 0x3e,
        0xad, 0xd5, 0xa8, 0xd7, 0x9d, 0xc7, 0x7f, 0x9f, 0xc9, 0x2a, 0xac, 0xe5, 0xc2, 0xcd, 0x9a,
        0x9b, 0xfa, 0x2d, 0x72, 0xab, 0x6b, 0xa4, 0x6b, 0x8b, 0x7d, 0xfa, 0x6c, 0x83, 0x63, 0x77,
        0x9f, 0x4e, 0x9a, 0x20, 0x35, 0xd2, 0x91, 0xce, 0xf4, 0x21, 0x1a, 0x97, 0x3c, 0x1a, 0x15,
        0x9d, 0xfc, 0x98, 0xba, 0x72, 0x1b, 0x9a, 0xa2, 0xe9, 0xc9, 0x46, 0x68, 0xce, 0xad, 0x27,
    ];

fn interleaved(interleave: u8) -> Vec<u8> {
    let mut cadu = vec![0u8; FIXTURE_MSG.len() * interleave as usize];
    // Interleave the same message interleave number of times
    for j in 0..FIXTURE_MSG.len() {
        for i in 0..interleave {
            cadu[interleave as usize * j + i as usize] = FIXTURE_MSG[j];
        }
    }
    cadu
}

#[test]
fn reed_solomon_test_deinterlace() {
    let dat: Vec<u8> = vec![0, 1, 2, 3, 0, 1, 2, 3];
    let blocks = deinterleave(&dat, 4);
    for (i, block) in blocks.iter().enumerate().take(4) {
        assert_eq!(block[0], u8::try_from(i).unwrap());
        assert_eq!(block[1], u8::try_from(i).unwrap());
    }
}

fn test_correct_codeblock(interleave: u8, blocksize: usize) {
    let mut cadu = interleaved(interleave);
    assert_eq!(cadu.len(), blocksize); // sanity check

    let rs = DefaultReedSolomon::new(interleave);
    let expected_block_len = if interleave == 4 { 892 } else { 1115 };
    let hdr = VCDUHeader::decode(&cadu).unwrap();

    // Check original data tests out OK
    let (status, block) = rs.perform(&hdr, &cadu).unwrap();
    assert_eq!(
        status,
        Integrity::NoErrors,
        "expected source test data to not have errors, but it was not Ok"
    );
    assert_eq!(block.len(), expected_block_len);

    // Introduce an error by just adding one with wrap to a byte and make sure it's corrected
    cadu[100] += 1;
    let (status, block) = rs.perform(&hdr, &cadu).unwrap();
    assert_eq!(
        status,
        Integrity::Corrected,
        "expected data to be corrected with introduced error, it was not"
    );
    assert_eq!(block.len(), expected_block_len);
}

#[test]
fn reed_solomon_test_correct_i4_1020_codeblock() {
    test_correct_codeblock(4, 1020);
}

#[test]
fn reed_solomon_test_correct_i5_1275_codeblock() {
    test_correct_codeblock(5, 1275);
}

#[test]
fn parity_length_is_that_of_rs2() {
    assert_eq!(ccsds::framing::PARITY_LEN, rs2::PARITY_LEN);
    assert_eq!(ccsds::framing::N, rs2::N as usize);
}

#[test]
fn corrected_block_is_the_message_without_parity() {
    let mut cadu = interleaved(4);
    let rs = DefaultReedSolomon::new(4);
    let hdr = VCDUHeader::decode(&cadu).unwrap();
    let (_, clean) = rs.perform(&hdr, &cadu).unwrap();
    // the corrected data is the deinterleaved message data, not the input handed back
    assert_ne!(clean, cadu);
    assert_eq!(&clean[..4], &[FIXTURE_MSG[0]; 4]);
    cadu[100] = cadu[100].wrapping_add(1);
    let (status, fixed) = rs.perform(&hdr, &cadu).unwrap();
    assert_eq!(status, Integrity::Corrected);
    assert_eq!(fixed, clean);
}

#[test]
fn wrong_codeblock_length_is_an_error() {
    let rs = DefaultReedSolomon::new(4);
    let cadu = vec![0u8; 1019];
    let hdr = VCDUHeader::decode(&cadu).unwrap();
    match rs.perform(&hdr, &cadu) {
        Err(Error::IntegrityAlgorithm(msg)) => assert_eq!(
            msg,
            "codeblock len=1019 cannot be corrected by this algorithm with interleave=4"
        ),
        other => panic!("expected an integrity error, got {other:?}"),
    }
}

#[test]
fn detection_off_skips_and_removes_parity() {
    let cadu = interleaved(4);
    let rs = DefaultReedSolomon::new(4).with_detection(false);
    let hdr = VCDUHeader::decode(&cadu).unwrap();
    let (status, block) = rs.perform(&hdr, &cadu).unwrap();
    assert_eq!(status, Integrity::Skipped);
    assert_eq!(block, cadu[..1020 - 128].to_vec());
}

#[test]
fn correction_off_reports_errors_without_correcting() {
    let mut cadu = interleaved(4);
    cadu[100] = cadu[100].wrapping_add(1);
    let rs = DefaultReedSolomon::new(4).with_correction(false);
    let hdr = VCDUHeader::decode(&cadu).unwrap();
    let (status, block) = rs.perform(&hdr, &cadu).unwrap();
    assert_eq!(status, Integrity::NotCorrected);
    assert_eq!(block, cadu);
}

#[test]
fn integrity_algorithm_passes_clean_block() {
    let cadu = interleaved(4);
    let rs = CheckReedSolomon::new(4);
    let hdr = VCDUHeader::decode(&cadu).unwrap();
    let (status, block) = rs.perform(&hdr, &cadu).unwrap();
    assert_eq!(status, CheckIntegrity::Passed);
    assert_eq!(block.len(), 892);
    assert_eq!(rs.remove_parity(&cadu).len(), 892);
}

#[test]
fn decode_frames_rs_checks_each_block() {
    let cadu = interleaved(4);
    // derandomizing twice restores the block, so give the decoder randomized data
    let pn = ccsds::framing::DefaultDerandomizer;
    let randomized = ccsds::framing::Derandomizer::derandomize(&pn, &cadu);
    let frames = decode_frames_rs(vec![randomized.clone(), vec![1, 2, 3]], 4);
    // the short block is skipped
    assert_eq!(frames.len(), 1);
    let frame = frames[0].as_ref().unwrap();
    assert_eq!(frame.integrity, Some(CheckIntegrity::Passed));
    assert_eq!(frame.frame.data.len(), 892);
    assert_eq!(frame.missing, 0);

    let same = decode_frames(vec![randomized], Some(CheckReedSolomon::new(4)), Some(pn));
    assert_eq!(same[0].as_ref().unwrap().frame.data, frame.frame.data);
}

#[test]
fn frame_decoder_counts_missing_frames() {
    // two frames of vcid 16 with counters 1 and 4: two frames missing between them
    let mut a = vec![0x67, 0x50, 0x00, 0x00, 0x01, 0x00];
    a.resize(20, 0);
    let mut b = vec![0x67, 0x50, 0x00, 0x00, 0x04, 0x00];
    b.resize(20, 0);
    let frames = FrameDecoder::new().decode(vec![a, b]);
    assert_eq!(frames.len(), 2);
    assert_eq!(frames[0].as_ref().unwrap().missing, 0);
    assert_eq!(frames[1].as_ref().unwrap().missing, 2);
    assert_eq!(frames[1].as_ref().unwrap().frame.header.counter, 4);
}

#[test]
fn test_deinterlace() {
    let dat: Vec<u8> = vec![0, 1, 2, 3, 0, 1, 2, 3];
    let blocks = deinterleave(&dat, 4);
    for (i, block) in blocks.iter().enumerate().take(4) {
        assert_eq!(block[0], u8::try_from(i).unwrap());
        assert_eq!(block[1], u8::try_from(i).unwrap());
    }
}

fn test_check_codeblock(interleave: u8, blocksize: usize) {
    let mut cadu = interleaved(interleave);
    assert_eq!(cadu.len(), blocksize); // sanity check

    let rs = CheckReedSolomon::new(interleave);
    let expected_block_len = if interleave == 4 { 892 } else { 1115 };
    let hdr = VCDUHeader::decode(&cadu).unwrap();

    // Check original data tests out OK
    let (status, block) = rs.perform(&hdr, &cadu).unwrap();
    assert_eq!(
        status,
        CheckIntegrity::Passed,
        "expected source test data to not have errors, but it was not Ok"
    );
    assert_eq!(block.len(), expected_block_len);

    // Introduce an error by just adding one with wrap to a byte and make sure it's corrected
    cadu[100] += 1;
    let (status, block) = rs.perform(&hdr, &cadu).unwrap();
    assert_eq!(
        status,
        CheckIntegrity::Corrected,
        "expected data to be corrected with introduced error, it was not"
    );
    assert_eq!(block.len(), expected_block_len);
}

#[test]
fn test_correct_i4_1020_codeblock() {
    test_check_codeblock(4, 1020);
}

#[test]
fn test_correct_i5_1275_codeblock() {
    test_check_codeblock(5, 1275);
}

#[test]
fn uncorrectable_block_is_handed_back_with_check_symbols() {
    let mut cadu = FIXTURE_MSG.to_vec();
    for b in cadu.iter_mut().skip(10).take(40) {
        *b = b.wrapping_add(0x5a);
    }
    let rs = DefaultReedSolomon::new(1);
    let hdr = VCDUHeader::decode(&cadu).unwrap();
    let (status, block) = rs.perform(&hdr, &cadu).unwrap();
    assert_eq!(status, Integrity::Uncorrectable);
    assert_eq!(block, cadu);
}

#[test]
fn pipeline_without_detection_removes_check_symbols() {
    let frames = vec![ccsds::framing::Frame::decode(vec![1u8; 1020]).unwrap()];
    let opts = ccsds::framing::RsOpts::new(4).with_detection(false);
    let out = ccsds::framing::reed_solomon(frames, opts);
    assert_eq!(out.len(), 1);
    assert_eq!(out[0].integrity, Some(Integrity::Skipped));
    assert_eq!(out[0].data, vec![1u8; 892]);
}

#[test]
fn frame_decoder_takes_any_integrity_algorithm() {
    // a fill frame: the check is not run, and CRC-32 has no check symbols to remove
    let mut fill = vec![0u8; 10];
    fill[1] = 0x3f;
    let frames = FrameDecoder::new().with_integrity(ccsds::framing::DefaultCrc32::new(0)).decode(vec![fill.clone()]);
    assert_eq!(frames.len(), 1);
    let f = frames[0].as_ref().unwrap();
    assert_eq!(f.frame.data, fill);
    assert_eq!(f.integrity, None);
}

#[test]
fn clean_block_is_handed_back_without_check_symbols() {
    let cadu = interleaved(4);
    let rs = DefaultReedSolomon::new(4);
    let hdr = VCDUHeader::decode(&cadu).unwrap();
    let (status, block) = rs.perform(&hdr, &cadu).unwrap();
    assert_eq!(status, Integrity::NoErrors);
    assert_eq!(block, cadu[..1020 - 128].to_vec());
}

#[test]
fn correction_off_hands_back_virtual_fill() {
    let mut cadu = FIXTURE_MSG[3..].to_vec();
    cadu[100] = cadu[100].wrapping_add(1);
    let rs = DefaultReedSolomon::new(1).with_virtual_fill(3).with_correction(false);
    let hdr = VCDUHeader::decode(&cadu).unwrap();
    let (status, block) = rs.perform(&hdr, &cadu).unwrap();
    assert_eq!(status, Integrity::NotCorrected);
    let mut filled = vec![0u8; 3];
    filled.extend_from_slice(&cadu);
    assert_eq!(block, filled);
}

#[test]
fn integrity_algorithm_uncorrectable_block_keeps_its_frame_bytes() {
    let mut cadu = FIXTURE_MSG.to_vec();
    for b in cadu.iter_mut().skip(10).take(40) {
        *b = b.wrapping_add(0x5a);
    }
    let rs = CheckReedSolomon::new(1);
    let hdr = VCDUHeader::decode(&cadu).unwrap();
    let (status, block) = rs.perform(&hdr, &cadu).unwrap();
    assert_eq!(status, CheckIntegrity::Uncorrectable);
    assert_eq!(block, cadu[..255 - 32].to_vec());
}
