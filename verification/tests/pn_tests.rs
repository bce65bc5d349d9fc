use ccsds::framing::pn::{_derandomize_loop, flip_bits, generate_pn_sequence, SEQUENCE};

#[test]
fn test_filp_bits() {
    assert_eq!(flip_bits(0xaa), 0x55);
    assert_eq!(flip_bits(0), 0);
    assert_eq!(flip_bits(0xf0), 0xf);
}

#[test]
fn test_generate_pn_sequence() {
    let sequence = [0xff, 0x48, 0xe, 0xc0];

    let table = generate_pn_sequence(0xa9, 0xff);
    for i in 0..sequence.len() {
        assert_eq!(
            sequence[i], table[i],
            "byte mismatch at idx {} got {}, expecte {}",
            i, table[i], sequence[i]
        );
    }
}

const DATA: [u8; 6] = [0x98, 0x18, 0x98, 0x82, 0x8c, 0x8d];
const EXPECTED: [u8; 6] = [0x67, 0x50, 0x96, 0x42, 0x16, 0x80];

#[test]
fn test_loop() {
    let mut buf = [0u8; 6];
    buf.clone_from_slice(&DATA[..]);
    let zult = _derandomize_loop(&buf);

    for (i, (a, b)) in zult.iter().zip(EXPECTED.iter()).enumerate() {
        assert_eq!(*a, *b, "failed at index {i}");
    }
}

#[test]
fn generated_sequence_is_the_table() {
    let table = generate_pn_sequence(0xa9, 0xff);
    assert_eq!(table, SEQUENCE);
}

#[test]
fn derandomize_twice_restores_data() {
    let data: Vec<u8> = (0..600u32).map(|i| (i * 7 % 256) as u8).collect();
    let once = _derandomize_loop(&data);
    assert_ne!(once, data);
    assert_eq!(_derandomize_loop(&once), data);
    // The sequence repeats every 255 bytes
    assert_eq!(once[300] ^ data[300], SEQUENCE[45]);
}
