//! CCSDS day segmented time codes (CDS).
use vstd::prelude::*;
use vstd::slice::slice_subrange;
use crate::error::{be_value, decimal, push_decimal};
use crate::timecode::Error;

verus! {

/// The text of the error for a p-field with `x` day bytes.
pub open spec fn num_day_error_text(x: usize) -> Seq<char> {
    "cds num_day must be 2 or 3; got "@ + decimal(x as nat)
}

/// The text of the error for a p-field with `x` sub-millisecond bytes.
pub open spec fn submillis_error_text(x: usize) -> Seq<char> {
    "submillis must be 0, 1, 2; got "@ + decimal(x as nat)
}

/// The text of the error for a decode with `x` sub-millisecond bytes.
pub open spec fn decode_submillis_error_text(x: usize) -> Seq<char> {
    "number of CDS sub-millisecond must be 0, 2, or 4; got "@ + decimal(x as nat)
}

/// The error text for a p-field with `x` day bytes.
fn num_day_error(x: usize) -> (s: String)
    ensures
        s@ == num_day_error_text(x),
{
    let mut s = String::from_str("cds num_day must be 2 or 3; got ");
    push_decimal(&mut s, x);
    s
}

/// The error text for a p-field with `x` sub-millisecond bytes.
fn submillis_error(x: usize) -> (s: String)
    ensures
        s@ == submillis_error_text(x),
{
    let mut s = String::from_str("submillis must be 0, 1, 2; got ");
    push_decimal(&mut s, x);
    s
}

/// The error text for a decode with `x` sub-millisecond bytes.
fn decode_submillis_error(x: usize) -> (s: String)
    ensures
        s@ == decode_submillis_error_text(x),
{
    let mut s = String::from_str("number of CDS sub-millisecond must be 0, 2, or 4; got ");
    push_decimal(&mut s, x);
    s
}

/// CDS p-field contents.
#[derive(Debug, Clone, Copy)]
pub struct PField {
    /// Number of day bytes
    num_day: usize,
    /// Number of submilli bytes
    num_submillis: usize,
}

/// The p-field [PField::new] accepts: 2 or 3 day bytes and up to 2 sub-millisecond
/// bytes; else the text of its error.
pub open spec fn pfield_outcome(num_day: usize, num_submillis: usize) -> Result<(usize, usize), Seq<char>> {
    if !(num_day == 2 || num_day == 3) {
        Err(num_day_error_text(num_day))
    } else if num_submillis > 2 {
        Err(submillis_error_text(num_submillis))
    } else {
        Ok((num_day, num_submillis))
    }
}

/// Whether `r` is the result [pfield_outcome] describes.
pub open spec fn pfield_result(r: Result<PField, Error>, o: Result<(usize, usize), Seq<char>>) -> bool {
    match o {
        Ok((d, s)) => r matches Ok(p) && p.num_day_view() == d && p.num_submillis_view() == s,
        Err(t) => r matches Err(e) && (e matches Error::InvalidPField(m) && m@ == t),
    }
}

impl PField {
    pub closed spec fn num_day_view(&self) -> usize {
        self.num_day
    }

    pub closed spec fn num_submillis_view(&self) -> usize {
        self.num_submillis
    }

    pub fn new(num_day: usize, num_submillis: usize) -> (r: Result<Self, Error>)
        ensures
            pfield_result(r, pfield_outcome(num_day, num_submillis)),
    {
        if !(num_day == 2 || num_day == 3) {
            return Err(Error::InvalidPField(num_day_error(num_day)));
        }
        if num_submillis > 2 {
            return Err(Error::InvalidPField(submillis_error(num_submillis)));
        }
        Ok(PField { num_day, num_submillis })
    }

    /// Decode the p-field byte that begins `buf`: bit 3 set means 3 day bytes, else
    /// 2; bits 4 and 5 give the number of sub-millisecond bytes.
    pub fn decode(buf: &[u8]) -> (r: Result<PField, Error>)
        ensures
            buf@.len() == 0 ==> r matches Err(Error::NotEnoughData),
            buf@.len() > 0 ==> pfield_result(
                r,
                pfield_outcome(
                    if (buf@[0] >> 3u8) & 1u8 == 1u8 {
                        3
                    } else {
                        2
                    },
                    ((buf@[0] >> 4u8) & 3u8) as usize,
                ),
            ),
    {
        if buf.len() == 0 {
            return Err(Error::NotEnoughData);
        }
        Self::new(
            if (buf[0] >> 3u8) & 1u8 == 1u8 {
                3
            } else {
                2
            },
            ((buf[0] >> 4u8) & 3u8) as usize,
        )
    }

    /// Length of the time code fields this p-field describes.
    pub fn len(&self) -> (n: usize)
        requires
            self.num_day_view() + self.num_submillis_view() + 4 <= usize::MAX,
        ensures
            n == self.num_day_view() + self.num_submillis_view() + 4,
    {
        self.num_day + self.num_submillis + 4
    }
}

/// The days, milliseconds of day and nanoseconds of a CDS time code with the
/// given field sizes: a sub-millisecond field of 2 bytes gives nanoseconds as its
/// value times 1000, one of 4 bytes as its value times 1000000.
pub open spec fn cds_values(buf: Seq<u8>, num_day: int, num_submillis: int) -> (int, int, int) {
    let days = be_value(buf.subrange(0, num_day));
    let millis = be_value(buf.subrange(num_day, num_day + 4));
    let nanos = if num_submillis == 2 {
        be_value(buf.subrange(num_day + 4, num_day + 6)) * 1000
    } else if num_submillis == 4 {
        be_value(buf.subrange(num_day + 4, num_day + 8)) * 1_000_000
    } else {
        0
    };
    (days as int, millis as int, nanos as int)
}

/// Whether [decode_cds_fields] can run on `buf` without overflow: up to 4 day bytes,
/// and a 4 byte sub-millisecond field small enough to count in nanoseconds.
pub open spec fn cds_fields_defined(buf: Seq<u8>, num_day: usize, num_submillis: usize) -> bool {
    &&& num_day <= 4
    &&& num_day + num_submillis + 4 <= usize::MAX
    &&& (num_submillis == 4 && buf.len() >= num_day + 8) ==> be_value(
        buf.subrange(num_day + 4, num_day + 8),
    ) * 1_000_000 <= u32::MAX
}

/// The big-endian value of up to 8 bytes.
fn be_u64(bytes: &[u8]) -> (v: u64)
    requires
        bytes@.len() <= 8,
    ensures
        v == be_value(bytes@),
{
    let mut v: u64 = 0;
    let mut i: usize = 0;
    while i < bytes.len()
        invariant
            i <= bytes@.len(),
            bytes@.len() <= 8,
            v == be_value(bytes@.subrange(0, i as int)),
            v < pow256(i as nat),
        decreases bytes@.len() - i,
    {
        proof {
            assert(bytes@.subrange(0, i as int + 1).drop_last() =~= bytes@.subrange(0, i as int));
            lemma_pow256_bound(i as nat);
        }
        v = v * 256 + bytes[i] as u64;
        i = i + 1;
    }
    assert(bytes@.subrange(0, bytes@.len() as int) =~= bytes@);
    v
}

/// `256` to the power `n`.
pub open spec fn pow256(n: nat) -> nat
    decreases n,
{
    if n == 0 {
        1
    } else {
        256 * pow256((n - 1) as nat)
    }
}

proof fn lemma_pow256_bound(n: nat)
    requires
        n < 8,
    ensures
        256 * pow256(n) <= 0x1_0000_0000_0000_0000,
    decreases n,
{
    reveal_with_fuel(pow256, 9);
}

/// The days, milliseconds of day and nanoseconds of the CDS time code that `buf`
/// begins with, for `num_day` day bytes and `num_submillis` sub-millisecond bytes.
///
/// # Errors
/// [Error::NotEnoughData] if `buf` is shorter than the time code, else
/// [Error::InvalidPField] if the number of sub-millisecond bytes is not 0, 2 or 4.
pub fn decode_cds_fields(buf: &[u8], num_day: usize, num_submillis: usize) -> (r: Result<(u32, u32, u32), Error>)
    requires
        cds_fields_defined(buf@, num_day, num_submillis),
    ensures
        buf@.len() < num_day + num_submillis + 4 ==> r matches Err(Error::NotEnoughData),
        buf@.len() >= num_day + num_submillis + 4 && !(num_submillis == 0 || num_submillis == 2
            || num_submillis == 4) ==> (r matches Err(e) && (e matches Error::InvalidPField(m) && m@
            == decode_submillis_error_text(num_submillis))),
        buf@.len() >= num_day + num_submillis + 4 && (num_submillis == 0 || num_submillis == 2
            || num_submillis == 4) ==> (r matches Ok((d, m, n)) && (d as int, m as int, n as int)
            == cds_values(buf@, num_day as int, num_submillis as int)),
{
    let want = num_day + num_submillis + 4;
    if buf.len() < want {
        return Err(Error::NotEnoughData);
    }
    let days = be_u64(slice_subrange(buf, 0, num_day));
    let millis = be_u64(slice_subrange(buf, num_day, num_day + 4));
    proof {
        lemma_be_value_bound(buf@.subrange(0, num_day as int));
        lemma_be_value_bound(buf@.subrange(num_day as int, num_day + 4));
        reveal_with_fuel(pow256, 5);
    }
    let nanos: u32 = if num_submillis == 0 {
        0
    } else if num_submillis == 2 {
        let x = be_u64(slice_subrange(buf, num_day + 4, num_day + 6));
        proof {
            lemma_be_value_bound(buf@.subrange(num_day + 4, num_day + 6));
            reveal_with_fuel(pow256, 3);
        }
        (x as u32) * 1_000
    } else if num_submillis == 4 {
        let x = be_u64(slice_subrange(buf, num_day + 4, num_day + 8));
        (x as u32) * 1_000_000
    } else {
        return Err(Error::InvalidPField(decode_submillis_error(num_submillis)));
    };
    Ok((days as u32, millis as u32, nanos))
}

/// A big-endian value of `n` bytes is less than `256` to the power `n`.
pub proof fn lemma_be_value_bound(s: Seq<u8>)
    ensures
        be_value(s) < pow256(s.len()),
    decreases s.len(),
{
    if s.len() > 0 {
        lemma_be_value_bound(s.drop_last());
    }
}

/// The big-endian value of two, three or four bytes, written out.
proof fn lemma_be_value_bytes(s: Seq<u8>)
    ensures
        s.len() == 2 ==> be_value(s) == s[0] * 256 + s[1],
        s.len() == 3 ==> be_value(s) == s[0] * 65536 + s[1] * 256 + s[2],
        s.len() == 4 ==> be_value(s) == s[0] * 16777216 + s[1] * 65536 + s[2] * 256 + s[3],
{
    reveal_with_fuel(be_value, 5);
}

/// The fields of a CDS time code, in terms of its bytes: the days are all `num_day`
/// leading bytes read big-endian, the milliseconds of day the four bytes after them,
/// and the sub-millisecond field the two or four bytes after those, counted in
/// microseconds or picoseconds.
pub proof fn lemma_cds_fields_from_bytes(buf: Seq<u8>, num_day: int, num_submillis: int)
    requires
        num_day == 2 || num_day == 3,
        num_submillis == 0 || num_submillis == 2 || num_submillis == 4,
        buf.len() >= num_day + num_submillis + 4,
    ensures
        ({
            let (days, millis, nanos) = cds_values(buf, num_day, num_submillis);
            let d = num_day;
            &&& num_day == 2 ==> days == buf[0] * 256 + buf[1]
            &&& num_day == 3 ==> days == buf[0] * 65536 + buf[1] * 256 + buf[2]
            &&& millis == buf[d] * 16777216 + buf[d + 1] * 65536 + buf[d + 2] * 256 + buf[d + 3]
            &&& num_submillis == 0 ==> nanos == 0
            &&& num_submillis == 2 ==> nanos == (buf[d + 4] * 256 + buf[d + 5]) * 1000
            &&& num_submillis == 4 ==> nanos == (buf[d + 4] * 16777216 + buf[d + 5] * 65536 + buf[d + 6]
                * 256 + buf[d + 7]) * 1_000_000
        }),
{
    let d = num_day;
    lemma_be_value_bytes(buf.subrange(0, d));
    lemma_be_value_bytes(buf.subrange(d, d + 4));
    if num_submillis == 2 {
        lemma_be_value_bytes(buf.subrange(d + 4, d + 6));
    }
    if num_submillis == 4 {
        lemma_be_value_bytes(buf.subrange(d + 4, d + 8));
    }
}

} // verus!
