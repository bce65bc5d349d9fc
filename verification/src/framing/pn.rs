//! Pseudo-noise removal.
//!
//! Implements the pseudo-randomizer of CCSDS TM Synchronization and Channel
//! Coding (131.0-B-5), Section 10.
use vstd::prelude::*;

verus! {

/// Sequence used to derandomize. Generated using poly=0xa9, gen=0xff.
pub const SEQUENCE: [u8; 255] = [
    0xff, 0x48, 0x0e, 0xc0, 0x9a, 0x0d, 0x70, 0xbc, 0x8e, 0x2c, 0x93, 0xad, 0xa7, 0xb7, 0x46, 0xce,
    0x5a, 0x97, 0x7d, 0xcc, 0x32, 0xa2, 0xbf, 0x3e, 0x0a, 0x10, 0xf1, 0x88, 0x94, 0xcd, 0xea, 0xb1,
    0xfe, 0x90, 0x1d, 0x81, 0x34, 0x1a, 0xe1, 0x79, 0x1c, 0x59, 0x27, 0x5b, 0x4f, 0x6e, 0x8d, 0x9c,
    0xb5, 0x2e, 0xfb, 0x98, 0x65, 0x45, 0x7e, 0x7c, 0x14, 0x21, 0xe3, 0x11, 0x29, 0x9b, 0xd5, 0x63,
    0xfd, 0x20, 0x3b, 0x02, 0x68, 0x35, 0xc2, 0xf2, 0x38, 0xb2, 0x4e, 0xb6, 0x9e, 0xdd, 0x1b, 0x39,
    0x6a, 0x5d, 0xf7, 0x30, 0xca, 0x8a, 0xfc, 0xf8, 0x28, 0x43, 0xc6, 0x22, 0x53, 0x37, 0xaa, 0xc7,
    0xfa, 0x40, 0x76, 0x04, 0xd0, 0x6b, 0x85, 0xe4, 0x71, 0x64, 0x9d, 0x6d, 0x3d, 0xba, 0x36, 0x72,
    0xd4, 0xbb, 0xee, 0x61, 0x95, 0x15, 0xf9, 0xf0, 0x50, 0x87, 0x8c, 0x44, 0xa6, 0x6f, 0x55, 0x8f,
    0xf4, 0x80, 0xec, 0x09, 0xa0, 0xd7, 0x0b, 0xc8, 0xe2, 0xc9, 0x3a, 0xda, 0x7b, 0x74, 0x6c, 0xe5,
    0xa9, 0x77, 0xdc, 0xc3, 0x2a, 0x2b, 0xf3, 0xe0, 0xa1, 0x0f, 0x18, 0x89, 0x4c, 0xde, 0xab, 0x1f,
    0xe9, 0x01, 0xd8, 0x13, 0x41, 0xae, 0x17, 0x91, 0xc5, 0x92, 0x75, 0xb4, 0xf6, 0xe8, 0xd9, 0xcb,
    0x52, 0xef, 0xb9, 0x86, 0x54, 0x57, 0xe7, 0xc1, 0x42, 0x1e, 0x31, 0x12, 0x99, 0xbd, 0x56, 0x3f,
    0xd2, 0x03, 0xb0, 0x26, 0x83, 0x5c, 0x2f, 0x23, 0x8b, 0x24, 0xeb, 0x69, 0xed, 0xd1, 0xb3, 0x96,
    0xa5, 0xdf, 0x73, 0x0c, 0xa8, 0xaf, 0xcf, 0x82, 0x84, 0x3c, 0x62, 0x25, 0x33, 0x7a, 0xac, 0x7f,
    0xa4, 0x07, 0x60, 0x4d, 0x06, 0xb8, 0x5e, 0x47, 0x16, 0x49, 0xd6, 0xd3, 0xdb, 0xa3, 0x67, 0x2d,
    0x4b, 0xbe, 0xe6, 0x19, 0x51, 0x5f, 0x9f, 0x05, 0x08, 0x78, 0xc4, 0x4a, 0x66, 0xf5, 0x58,
];

/// Bit `k` (0 = least significant) of `b`.
pub open spec fn bit(b: u8, k: u8) -> u8 {
    (b >> k) & 1u8
}

/// A byte with its bit order reversed.
pub open spec fn spec_flip_bits(b: u8) -> u8 {
    ((b & 1u8) << 7u8) | ((b & 2u8) << 5u8) | ((b & 4u8) << 3u8) | ((b & 8u8) << 1u8) | ((b & 16u8)
        >> 1u8) | ((b & 32u8) >> 3u8) | ((b & 64u8) >> 5u8) | ((b & 128u8) >> 7u8)
}

/// XOR of the bits of `g` selected by the taps of `poly` among the low `k` bits.
pub open spec fn feedback_bit(poly: u8, g: u8, k: nat) -> u8
    decreases k,
{
    if k == 0 {
        0
    } else {
        feedback_bit(poly, g, (k - 1) as nat) ^ (if bit(poly, (k - 1) as u8) == 1u8 {
            bit(g, (k - 1) as u8)
        } else {
            0u8
        })
    }
}

/// One shift of the generator register: the feedback bit enters at the top.
pub open spec fn lfsr_step(poly: u8, g: u8) -> u8 {
    (feedback_bit(poly, g, 8) << 7u8) | (g >> 1u8)
}

/// `n` shifts of the generator register.
pub open spec fn lfsr_steps(poly: u8, g: u8, n: nat) -> u8
    decreases n,
{
    if n == 0 {
        g
    } else {
        lfsr_step(poly, lfsr_steps(poly, g, (n - 1) as nat))
    }
}

/// The byte of the pseudo-noise sequence that follows `prev`.
pub open spec fn pn_next_byte(poly: u8, prev: u8) -> u8 {
    spec_flip_bits(lfsr_steps(poly, spec_flip_bits(prev), 8))
}

/// The first `n` bytes of the pseudo-noise sequence for `poly` seeded with `gen`.
pub open spec fn pn_sequence(poly: u8, gen: u8, n: nat) -> Seq<u8>
    decreases n,
{
    if n == 0 {
        seq![]
    } else if n == 1 {
        seq![gen]
    } else {
        let t = pn_sequence(poly, gen, (n - 1) as nat);
        t.push(pn_next_byte(poly, t.last()))
    }
}

/// Reverse the bit order of a byte, i.e., bit `i` moves to bit `7 - i`.
pub fn flip_bits(b: u8) -> (x: u8)
    ensures
        x == spec_flip_bits(b),
        forall|j: u8| j < 8 ==> #[trigger] bit(x, j) == bit(b, (7 - j) as u8),
{
    let x: u8 = ((b & 1u8) << 7u8) | ((b & 2u8) << 5u8) | ((b & 4u8) << 3u8) | ((b & 8u8) << 1u8)
        | ((b & 16u8) >> 1u8) | ((b & 32u8) >> 3u8) | ((b & 64u8) >> 5u8) | ((b & 128u8) >> 7u8);
    assert(forall|j: u8| j < 8 ==> #[trigger] bit(x, j) == bit(b, (7 - j) as u8)) by (bit_vector)
        requires
            x == ((b & 1u8) << 7u8) | ((b & 2u8) << 5u8) | ((b & 4u8) << 3u8) | ((b & 8u8) << 1u8)
                | ((b & 16u8) >> 1u8) | ((b & 32u8) >> 3u8) | ((b & 64u8) >> 5u8) | ((b & 128u8)
                >> 7u8),
    ;
    x
}

/// Generates the 255 byte pseudo-noise sequence for the polynomial `poly` (the
/// bit representation of the polynomial, e.g., x^8+x^6+x^4+x^1 is 0xa9) and the
/// generator, or initial seed value, `gen`.
///
/// Used to generate `SEQUENCE`.
pub fn generate_pn_sequence(poly: u8, gen: u8) -> (table: [u8; 255])
    ensures
        table@ == pn_sequence(poly, gen, 255),
{
    let mut table = [0u8; 255];
    table[0] = gen;
    assert(table@.take(1) =~= pn_sequence(poly, gen, 1));
    let mut num: usize = 1;
    while num < 255
        invariant
            1 <= num <= 255,
            table@.len() == 255,
            table@.take(num as int) =~= pn_sequence(poly, gen, num as nat),
        decreases 255 - num,
    {
        let ghost prev = table@.take(num as int);
        let mut g = flip_bits(table[num - 1]);
        let ghost start = g;
        let mut step: usize = 0;
        while step < 8
            invariant
                step <= 8,
                g == lfsr_steps(poly, start, step as nat),
            decreases 8 - step,
        {
            let mut b: u8 = 0;
            let mut pbit: u8 = 0;
            while pbit < 8
                invariant
                    pbit <= 8,
                    b == feedback_bit(poly, g, pbit as nat),
                decreases 8 - pbit,
            {
                let ghost b0 = b;
                if (poly >> pbit) & 1 == 1 {
                    b = b ^ ((g >> pbit) & 1);
                } else {
                    assert(b0 ^ 0u8 == b0) by (bit_vector);
                }
                pbit = pbit + 1;
            }
            g = (b << 7u8) | (g >> 1u8);
            step = step + 1;
        }
        table[num] = flip_bits(g);
        proof {
            assert(prev.last() == table@[num - 1]);
        }
        assert(table@.take(num + 1) =~= prev.push(table@[num as int]));
        num = num + 1;
    }
    assert(table@ =~= table@.take(255));
    table
}

/// Derandomize `buf` by XOR with the repeating pseudo-noise `SEQUENCE`.
pub fn _derandomize_loop(buf: &[u8]) -> (out: Vec<u8>)
    ensures
        out@.len() == buf@.len(),
        forall|i: int| 0 <= i < buf@.len() ==> #[trigger] out@[i] == buf@[i] ^ SEQUENCE@[i % 255],
{
    let mut out: Vec<u8> = Vec::with_capacity(buf.len());
    let mut idx: usize = 0;
    while idx < buf.len()
        invariant
            idx <= buf@.len(),
            out@.len() == idx,
            forall|i: int| 0 <= i < idx ==> #[trigger] out@[i] == buf@[i] ^ SEQUENCE@[i % 255],
        decreases buf@.len() - idx,
    {
        out.push(buf[idx] ^ SEQUENCE[idx % 255]);
        idx = idx + 1;
    }
    out
}

/// `dat` XORed with the repeating pseudo-noise `SEQUENCE`.
pub open spec fn spec_derandomize(dat: Seq<u8>) -> Seq<u8> {
    Seq::new(dat.len(), |i: int| dat[i] ^ SEQUENCE@[i % 255])
}

/// Derandomizing twice gives back the original data: the pseudo-noise is applied
/// and removed by the same XOR.
pub proof fn lemma_derandomize_involution(dat: Seq<u8>)
    ensures
        spec_derandomize(spec_derandomize(dat)) == dat,
{
    assert forall|i: int| 0 <= i < dat.len() implies #[trigger] spec_derandomize(
        spec_derandomize(dat),
    )[i] == dat[i] by {
        let x = dat[i];
        let s = SEQUENCE@[i % 255];
        assert((x ^ s) ^ s == x) by (bit_vector);
    }
    assert(spec_derandomize(spec_derandomize(dat)) =~= dat);
}

/// An implementation of Pseudo-noise removal.
pub trait Derandomizer {
    /// The derandomized form of `dat`.
    spec fn derandomized(&self, dat: Seq<u8>) -> Seq<u8>;

    fn derandomize(&self, dat: &[u8]) -> (r: Vec<u8>)
        ensures
            r@ == self.derandomized(dat@),
    ;
}

/// ``PNDecoder`` implementing standard CCSDS pseudo-noise derandomizon
/// (See [`TM Synchronization and Channel Coding`](https://public.ccsds.org/Pubs/131x0b5.pdf))
#[derive(Clone, Copy, Debug)]
pub struct DefaultDerandomizer;

impl Default for DefaultDerandomizer {
    fn default() -> (r: Self)
        ensures
            r == DefaultDerandomizer,
    {
        DefaultDerandomizer
    }
}

impl Derandomizer for DefaultDerandomizer {
    open spec fn derandomized(&self, dat: Seq<u8>) -> Seq<u8> {
        spec_derandomize(dat)
    }

    fn derandomize(&self, dat: &[u8]) -> (r: Vec<u8>) {
        let r = _derandomize_loop(dat);
        assert(r@ =~= spec_derandomize(dat@));
        r
    }
}

} // verus!
