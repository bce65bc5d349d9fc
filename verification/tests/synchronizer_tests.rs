use ccsds::framing::synchronizer::{create_patterns, left_shift};
use ccsds::framing::{read_synchronized_blocks, Loc, Synchronizer, ASM};

#[test]
fn left_shift_over_asm_bytes() {
    let input = [0, 26, 207, 252, 29];
    let expected = vec![
        [0, 26, 207, 252, 29],
        [13, 103, 254, 14, 128],
        [6, 179, 255, 7, 64],
        [3, 89, 255, 131, 160],
        [1, 172, 255, 193, 208],
        [0, 214, 127, 224, 232],
        [0, 107, 63, 240, 116],
        [0, 53, 159, 248, 58],
    ];
    #[allow(clippy::reversed_empty_ranges)]
    for i in expected.len()..0 {
        let zult = left_shift(&input[..], i);
        zult.iter().zip(expected[i]).for_each(|(x, y)| {
            assert_eq!(
                x, &y,
                "test:{i} expected:{expected:?} got:{zult:?} for {input:?}",
            );
        });
    }
}

#[test]
fn create_patterns_over_asm_bytes() {
    let marker = ASM;
    let (patterns, _) = create_patterns(ASM.as_ref());
    for (i, x) in marker.iter().enumerate() {
        assert_eq!(patterns[0][i], *x, "missmatch at index {i}");
    }

    let expected = [
        [13, 103, 254, 14, 128],
        [6, 179, 255, 7, 64],
        [3, 89, 255, 131, 160],
        [1, 172, 255, 193, 208],
        [0, 214, 127, 224, 232],
        [0, 107, 63, 240, 116],
        [0, 53, 159, 248, 58],
    ];
    for i in 1..patterns.len() {
        assert_eq!(patterns[i], expected[i - 1]);
    }
}

#[test]
fn ccsds_asm_with_no_bitshift_succeeds() {
    let marker = ASM.to_vec();
    let r = &ASM[..];
    let mut scanner = Synchronizer::new(r.to_vec(), &marker, 0);
    let loc = scanner.scan().expect("Expected scan to succeed");

    let expected = Loc { offset: 5, bit: 0 };
    assert_eq!(loc.unwrap(), expected);
}

#[test]
fn ccsds_asm_shifted() {
    let patterns: Vec<[u8; 5]> = vec![
        [13, 103, 254, 14, 128],
        [6, 179, 255, 7, 64],
        [3, 89, 255, 131, 160],
        [1, 172, 255, 193, 208],
        [0, 214, 127, 224, 232],
        [0, 107, 63, 240, 116],
        [0, 53, 159, 248, 58],
    ];
    for (i, pat) in patterns.iter().enumerate() {
        let marker = ASM.to_vec();
        let mut scanner = Synchronizer::new(pat.to_vec(), &marker, 0);
        let msg = format!("expected sync for {pat:?}");
        let loc = scanner.scan().expect(msg.as_str());

        let expected = Loc {
            offset: 5,
            bit: 7 - u8::try_from(i).unwrap(),
        };
        assert_eq!(loc.unwrap(), expected, "pattern {pat:?}");
    }
}

#[test]
fn ccsds_asm_shifted_right_one_bit() {
    let marker = ASM.to_vec();
    let r: &[u8] = &[13, 103, 254, 14, 128];
    let mut scanner = Synchronizer::new(r.to_vec(), &marker, 0);
    let loc = scanner.scan().unwrap();

    let expected = Loc { offset: 5, bit: 7 };
    assert_eq!(loc.unwrap(), expected);
}

#[test]
fn block_fcn_returns_correct_bytes_with_no_shift() {
    let marker = vec![0x55];
    let r: &[u8] = &[0x55, 0x01, 0x02, 0x00, 0x00, 0x55, 0x03, 0x04, 0x00, 0x00];
    let mut scanner = Synchronizer::new(r.to_vec(), &marker, 2);

    // First block
    let loc = scanner.scan().expect("Expected scan 1 to succeed");
    let expected = Loc { offset: 2, bit: 0 };
    assert_eq!(loc.unwrap(), expected);
    let block = scanner.block().expect("Expected block 1 to succeed");
    assert_eq!(block, [0x01, 0x02]);

    // Second block
    let loc = scanner.scan().expect("Expected scan 2 to succeed");
    let expected = Loc { offset: 7, bit: 0 };
    assert_eq!(loc.unwrap(), expected);
    let block = scanner.block().expect("Expected block 2 to succeed");
    assert_eq!(block, [0x03, 0x04]);
}

#[test]
fn block_fcn_returns_correct_bytes_when_shifted_1() {
    let marker = vec![0b0101_0101];
    let r: &[u8] = &[
        0b0010_1010,
        0b1000_0000,
        0b1000_0001,
        0b0000_0000,
        0b0000_0000,
        0b0010_1010,
        0b1000_0001,
        0b1000_0010,
        0b0000_0000,
        0b0000_0000,
        0b0000_0000,
    ];
    let mut scanner = Synchronizer::new(r.to_vec(), &marker, 2);

    // First block
    let loc = scanner.scan().expect("Expected scan 1 to succeed");
    let expected = Loc { offset: 2, bit: 7 };
    assert_eq!(loc.unwrap(), expected);
    let block = scanner.block().expect("Expected block 1 to succeed");
    assert_eq!(block, [0x01, 0x02]);

    // Second block
    let loc = scanner.scan().expect("Expected scan 2 to succeed");
    let expected = Loc { offset: 7, bit: 7 };
    assert_eq!(loc.unwrap(), expected);
    let block = scanner.block().expect("Expected block 2 to succeed");
    assert_eq!(block, [0x03, 0x04]);
}

#[test]
fn left_shift_by_three() {
    assert_eq!(left_shift(&[0b1010_0001, 0b1110_0000], 3), vec![0b0000_1111, 0]);
    assert_eq!(left_shift(&[0x12, 0x34], 0), vec![0x12, 0x34]);
}

#[test]
fn scan_without_marker_finds_nothing() {
    let mut scanner = Synchronizer::new(vec![0u8; 20], &ASM, 4);
    assert_eq!(scanner.scan().unwrap(), None);
}

#[test]
fn scan_skips_leading_garbage() {
    let mut data = vec![0u8, 0, 7];
    data.extend_from_slice(&ASM);
    data.extend_from_slice(&[1, 2, 3]);
    let mut scanner = Synchronizer::new(data, &ASM, 3);
    assert_eq!(scanner.scan().unwrap(), Some(Loc { offset: 8, bit: 0 }));
    assert_eq!(scanner.block().unwrap(), vec![1, 2, 3]);
    assert!(scanner.pattern_hits.get(&0).copied() == Some(1));
}

#[test]
fn partial_block_at_end_is_an_error() {
    let mut data = ASM.to_vec();
    data.extend_from_slice(&[1, 2]);
    let mut scanner = Synchronizer::new(data, &ASM, 3);
    assert!(scanner.scan().unwrap().is_some());
    assert!(matches!(scanner.block(), Err(ccsds::Error::UnexpectedEof)));
}

#[test]
fn read_blocks_drops_partial_block() {
    let mut data = ASM.to_vec();
    data.extend_from_slice(&[1, 2, 3]);
    data.extend_from_slice(&[0xee]);
    data.extend_from_slice(&ASM);
    data.extend_from_slice(&[4, 5, 6]);
    data.extend_from_slice(&ASM);
    data.extend_from_slice(&[7]);
    let blocks = read_synchronized_blocks(data, &ASM, 3);
    assert_eq!(blocks, vec![vec![1, 2, 3], vec![4, 5, 6]]);
}

#[test]
fn read_blocks_when_bit_shifted() {
    // ASM then block, all shifted right by 1 bit
    let dat = [0x1a, 0xcf, 0xfc, 0x1d, 0xaa, 0x55];
    let mut shifted = vec![0u8; dat.len() + 1];
    for i in 0..dat.len() {
        shifted[i] |= dat[i] >> 1;
        shifted[i + 1] |= dat[i] << 7;
    }
    let blocks = read_synchronized_blocks(shifted, &ASM, 2);
    assert_eq!(blocks, vec![vec![0xaa, 0x55]]);
}
