//! CCSDS unsegmented time codes (CUC).
use vstd::prelude::*;
use vstd::slice::slice_subrange;
use crate::error::be_value;
use crate::timecode::Error;

verus! {

/// CUC p-field contents: the sizes of the basic and fine time fields, and the
/// length of the p-field itself, extension bytes included.
#[derive(Debug, Clone, Copy)]
pub struct PField {
    /// Number of bytes of basic time
    pub num_basic: usize,
    /// Number of bytes of fine time
    pub num_fine: usize,
    /// Total length of the pfield
    pub len: usize,
}

/// The p-field from octet `i` on, with the counts so far: while octet `i` has its
/// extension flag (bit 7) set, the next octet belongs to the p-field and adds its
/// bits 5-6 to the number of basic time octets and its bits 2-4 to the number of
/// fine time octets. `None` if an extension octet the p-field calls for is missing.
pub open spec fn pfield_from(buf: Seq<u8>, i: int, basic: int, fine: int, len: int) -> Option<
    (int, int, int),
>
    decreases buf.len() - i,
{
    if i < 0 || i >= buf.len() || (buf[i] >> 7u8) & 1u8 != 1u8 {
        Some((basic, fine, len))
    } else if i + 1 >= buf.len() {
        None
    } else {
        pfield_from(
            buf,
            i + 1,
            basic + ((buf[i + 1] >> 5u8) & 3u8),
            fine + ((buf[i + 1] >> 2u8) & 7u8),
            len + 1,
        )
    }
}

/// The p-field that begins `buf`: the first octet gives the number of basic time
/// octets in bits 2-3 (plus one) and of fine time octets in bits 0-1.
pub open spec fn spec_pfield(buf: Seq<u8>) -> Option<(int, int, int)>
    recommends
        buf.len() > 0,
{
    pfield_from(buf, 0, ((buf[0] >> 2u8) & 3u8) + 1, (buf[0] & 3u8) as int, 1)
}

impl PField {
    /// Decode the p-field that begins `buf`, extension bytes included.
    ///
    /// # Errors
    /// [Error::NotEnoughData] if `buf` is empty, [Error::InvalidPField] if an extension
    /// byte the p-field calls for is missing.
    pub fn decode(buf: &[u8]) -> (r: Result<PField, Error>)
        requires
            buf@.len() <= usize::MAX / 8,
        ensures
            buf@.len() == 0 ==> r matches Err(Error::NotEnoughData),
            buf@.len() > 0 ==> (match spec_pfield(buf@) {
                None => r matches Err(e) && (e matches Error::InvalidPField(m)
                    && m@ == "pfield missing required extention bytes"@),
                Some((b, f, l)) => r matches Ok(p) && p.num_basic == b && p.num_fine == f && p.len == l,
            }),
    {
        if buf.len() == 0 {
            return Err(Error::NotEnoughData);
        }
        let b0 = buf[0];
        assert((b0 >> 2u8) & 3u8 <= 3u8) by (bit_vector);
        assert(b0 & 3u8 <= 3u8) by (bit_vector);
        let mut num_basic: usize = ((b0 >> 2u8) & 3u8) as usize + 1;
        let mut num_fine: usize = (b0 & 3u8) as usize;
        let mut len: usize = 1;
        let mut i: usize = 0;
        let ghost start = spec_pfield(buf@);
        while (buf[i] >> 7u8) & 1u8 == 1u8
            invariant
                i < buf@.len(),
                buf@.len() <= usize::MAX / 8,
                num_basic <= 4 + 3 * i,
                num_fine <= 3 + 7 * i,
                len == 1 + i,
                start == spec_pfield(buf@),
                start == pfield_from(buf@, i as int, num_basic as int, num_fine as int, len as int),
            decreases buf@.len() - i,
        {
            if i + 1 >= buf.len() {
                return Err(Error::InvalidPField(String::from_str("pfield missing required extention bytes")));
            }
            i = i + 1;
            let b = buf[i];
            assert((b >> 5u8) & 3u8 <= 3u8) by (bit_vector);
            assert((b >> 2u8) & 7u8 <= 7u8) by (bit_vector);
            len = len + 1;
            num_basic = num_basic + ((b >> 5u8) & 3u8) as usize;
            num_fine = num_fine + ((b >> 2u8) & 7u8) as usize;
        }
        Ok(PField { num_basic, num_fine, len })
    }

    /// Length of the p-field.
    pub fn len(&self) -> (n: usize)
        ensures
            n == self.len,
    {
        self.len
    }

    /// Length of the time fields the p-field describes.
    pub fn time_len(&self) -> (n: usize)
        requires
            self.num_basic + self.num_fine <= usize::MAX,
        ensures
            n == self.num_basic + self.num_fine,
    {
        self.num_basic + self.num_fine
    }
}

/// The big-endian value of up to 8 bytes.
fn be_u64(bytes: &[u8]) -> (v: u64)
    requires
        bytes@.len() <= 8,
    ensures
        v == be_value(bytes@),
{
    let mut v: u64 = 0;
    let mut i: usize = 0;
    while i < bytes.len()
        invariant
            i <= bytes@.len(),
            bytes@.len() <= 8,
            v == be_value(bytes@.subrange(0, i as int)),
            v < crate::timecode::cds::pow256(i as nat),
        decreases bytes@.len() - i,
    {
        proof {
            assert(bytes@.subrange(0, i as int + 1).drop_last() =~= bytes@.subrange(0, i as int));
            reveal_with_fuel(crate::timecode::cds::pow256, 9);
        }
        v = v * 256 + bytes[i] as u64;
        i = i + 1;
    }
    assert(bytes@.subrange(0, bytes@.len() as int) =~= bytes@);
    v
}

/// The coarse and fine time counts of the CUC time code that `buf` begins with, for
/// `num_basic` bytes of basic time followed by `num_fine` bytes of fine time.
pub fn decode_cuc_fields(buf: &[u8], num_basic: usize, num_fine: usize) -> (r: (u64, u64))
    requires
        num_basic <= 8,
        num_fine <= 8,
        num_basic + num_fine <= buf@.len(),
    ensures
        r.0 == be_value(buf@.subrange(0, num_basic as int)),
        r.1 == be_value(buf@.subrange(num_basic as int, num_basic + num_fine)),
{
    let coarse = be_u64(slice_subrange(buf, 0, num_basic));
    let fine = be_u64(slice_subrange(buf, num_basic, num_basic + num_fine));
    (coarse, fine)
}

} // verus!
