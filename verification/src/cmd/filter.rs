//! The decisions of the packet filter tool.
use vstd::prelude::*;
use vstd::utf8::encode_utf8;
use crate::spacepacket::packet::{Apid, Packet, PacketGroup, PrimaryHeader};

verus! {

/// Earliest time a packet can have, in nanoseconds since the start of 1900 (UTC).
pub const MIN_STAMP: i128 = 0;
/// Latest time a packet can have: 73049 days after [MIN_STAMP], in nanoseconds.
pub const MAX_STAMP: i128 = 6311433600000000000;

/// Whether any filter is given: the tool refuses to run without one.
pub fn filters_given(selected: &[Apid], rejected: &[Apid], before: Option<i128>, after: Option<i128>) -> (r: bool)
    ensures
        r == (selected@.len() > 0 || rejected@.len() > 0 || before is Some || after is Some),
{
    !(selected.len() == 0 && rejected.len() == 0 && before.is_none() && after.is_none())
}

fn contains(s: &[Apid], apid: Apid) -> (r: bool)
    ensures
        r == s@.contains(apid),
{
    let mut i: usize = 0;
    while i < s.len()
        invariant
            i <= s@.len(),
            forall|j: int| 0 <= j < i ==> s@[j] != apid,
        decreases s@.len() - i,
    {
        if s[i] == apid {
            return true;
        }
        i = i + 1;
    }
    false
}

/// Whether a packet at time `stamp` passes the time filters: `before` excludes
/// times at or after it and `after` times before it; without `before`, times at or
/// after [MAX_STAMP] are excluded.
pub open spec fn time_passes(stamp: i128, before: Option<i128>, after: Option<i128>) -> bool {
    let b = match before {
        Some(t) => t,
        None => MAX_STAMP,
    };
    let a = match after {
        Some(t) => t,
        None => MIN_STAMP,
    };
    !((before is Some && after is Some && stamp < a) || stamp >= b) && !(before is Some && stamp
        >= b) && !(after is Some && stamp < a)
}

/// Whether a packet of `apid` passes the apid filters: it must be included when
/// `selected` is given and must not be excluded when `rejected` is given.
pub open spec fn apid_passes(apid: Apid, selected: Seq<Apid>, rejected: Seq<Apid>) -> bool {
    !(selected.len() > 0 && !selected.contains(apid)) && !(rejected.len() > 0 && rejected.contains(
        apid,
    ))
}

/// Whether the filter writes a packet group of `apid` at time `stamp`.
pub fn filter_keeps(
    apid: Apid,
    stamp: i128,
    selected: &[Apid],
    rejected: &[Apid],
    before: Option<i128>,
    after: Option<i128>,
) -> (r: bool)
    ensures
        r == (time_passes(stamp, before, after) && apid_passes(apid, selected@, rejected@)),
{
    let have_before = before.is_some();
    let before = match before {
        Some(t) => t,
        None => MAX_STAMP,
    };
    let have_after = after.is_some();
    let after = match after {
        Some(t) => t,
        None => MIN_STAMP,
    };
    if have_before && have_after && stamp < after || stamp >= before {
        return false;
    } else if have_before && stamp >= before {
        return false;
    } else if have_after && stamp < after {
        return false;
    }
    if selected.len() > 0 && !contains(selected, apid) {
        return false;
    }
    if rejected.len() > 0 && contains(rejected, apid) {
        return false;
    }
    true
}

/// Whether the filter considers a group: it has packets and does not begin with the
/// last or a continuing packet of a group.
pub open spec fn filter_group_starts(g: PacketGroup) -> bool {
    g.packets@.len() > 0 && g.packets@[0].header.sequence_flags != PrimaryHeader::SEQ_LAST
        && g.packets@[0].header.sequence_flags != PrimaryHeader::SEQ_CONTINUATION
}

/// Whether the filter considers a group, see [filter_group_starts].
pub fn group_starts(g: &PacketGroup) -> (r: bool)
    ensures
        r == filter_group_starts(*g),
{
    !(g.packets.len() == 0 || g.packets[0].is_last() || g.packets[0].is_cont())
}

/// The bytes of all packets of a group, one after the other.
pub open spec fn group_data(packets: Seq<crate::spacepacket::packet::Packet>) -> Seq<u8>
    decreases packets.len(),
{
    if packets.len() == 0 {
        seq![]
    } else {
        group_data(packets.drop_last()) + packets.last().data@
    }
}

/// The bytes of all packets of a group, one after the other.
pub fn group_bytes(g: &PacketGroup) -> (data: Vec<u8>)
    requires
        group_data(g.packets@).len() <= usize::MAX,
    ensures
        data@ == group_data(g.packets@),
{
    let mut data: Vec<u8> = Vec::new();
    let mut i: usize = 0;
    while i < g.packets.len()
        invariant
            i <= g.packets@.len(),
            group_data(g.packets@).len() <= usize::MAX,
            data@ == group_data(g.packets@.subrange(0, i as int)),
        decreases g.packets@.len() - i,
    {
        proof {
            assert(g.packets@.subrange(0, i as int + 1).drop_last() =~= g.packets@.subrange(0, i as int));
            lemma_group_data_prefix(g.packets@, i as int + 1);
        }
        data.extend_from_slice(g.packets[i].data.as_slice());
        i = i + 1;
    }
    proof {
        assert(g.packets@.subrange(0, g.packets@.len() as int) =~= g.packets@);
    }
    data
}

/// The bytes of a prefix of the packets are no more than those of all of them.
proof fn lemma_group_data_prefix(ps: Seq<crate::spacepacket::packet::Packet>, n: int)
    requires
        0 <= n <= ps.len(),
    ensures
        group_data(ps.subrange(0, n)).len() <= group_data(ps).len(),
    decreases ps.len() - n,
{
    if n < ps.len() {
        assert(ps.subrange(0, n + 1).drop_last() =~= ps.subrange(0, n));
        lemma_group_data_prefix(ps, n + 1);
    } else {
        assert(ps.subrange(0, n) =~= ps);
    }
}

/// Why a list of numbers and ranges was refused.
#[derive(Debug, Clone, Copy, PartialEq, Eq, Structural)]
pub enum RangeError {
    /// An entry is neither a number nor a range `a-b` of numbers.
    InvalidRange,
    /// A number does not fit 32 bits.
    InvalidNumber,
    /// A bound of a range does not fit 32 bits.
    InvalidRangeValue,
}

/// Whether a byte is an ASCII decimal digit.
pub open spec fn is_digit(b: u8) -> bool {
    48 <= b <= 57
}

/// The value of a sequence of ASCII decimal digits.
pub open spec fn digits_value(s: Seq<u8>) -> nat
    decreases s.len(),
{
    if s.len() == 0 {
        0
    } else {
        digits_value(s.drop_last()) * 10 + (s.last() - 48) as nat
    }
}

/// Whether `s` is one or more ASCII decimal digits.
pub open spec fn all_digits(s: Seq<u8>) -> bool {
    s.len() > 0 && forall|i: int| 0 <= i < s.len() ==> is_digit(#[trigger] s[i])
}

/// What one entry of the list means: a number, a range `a-b` of numbers whose start
/// is below its end, or an error.
pub open spec fn entry_values(s: Seq<u8>) -> Result<Seq<u32>, RangeError> {
    if all_digits(s) {
        if digits_value(s) > u32::MAX {
            Err(RangeError::InvalidNumber)
        } else {
            Ok(seq![digits_value(s) as u32])
        }
    } else if exists|d: int| 0 <= d < s.len() && s[d] == 45 && all_digits(s.subrange(0, d))
        && all_digits(s.subrange(d + 1, s.len() as int)) {
        let d = choose|d: int|
            0 <= d < s.len() && s[d] == 45 && all_digits(s.subrange(0, d)) && all_digits(
                s.subrange(d + 1, s.len() as int),
            );
        let start = digits_value(s.subrange(0, d));
        let end = digits_value(s.subrange(d + 1, s.len() as int));
        if start > u32::MAX || end > u32::MAX {
            Err(RangeError::InvalidRangeValue)
        } else if start >= end {
            Err(RangeError::InvalidRange)
        } else {
            Ok(Seq::new((end - start + 1) as nat, |i: int| (start + i) as u32))
        }
    } else {
        Err(RangeError::InvalidRange)
    }
}

/// The numbers an entry of digits stands for, if they fit 32 bits.
fn parse_digits(s: &[u8]) -> (r: Option<u32>)
    requires
        all_digits(s@),
    ensures
        r is Some <==> digits_value(s@) <= u32::MAX,
        r matches Some(v) ==> v == digits_value(s@),
{
    let mut v: u64 = 0;
    let mut i: usize = 0;
    while i < s.len()
        invariant
            i <= s@.len(),
            all_digits(s@),
            v == digits_value(s@.subrange(0, i as int)),
            v <= u32::MAX,
        decreases s@.len() - i,
    {
        proof {
            assert(s@.subrange(0, i as int + 1).drop_last() =~= s@.subrange(0, i as int));
            assert(is_digit(s@[i as int]));
        }
        let next = v * 10 + (s[i] - 48) as u64;
        if next > 0xffff_ffff {
            proof {
                lemma_digits_value_grows(s@, i as int + 1);
            }
            return None;
        }
        v = next;
        i = i + 1;
    }
    proof {
        assert(s@.subrange(0, s@.len() as int) =~= s@);
    }
    Some(v as u32)
}

/// The value of digits is at least that of any prefix of them.
proof fn lemma_digits_value_grows(s: Seq<u8>, n: int)
    requires
        0 <= n <= s.len(),
        all_digits(s),
    ensures
        digits_value(s.subrange(0, n)) <= digits_value(s),
    decreases s.len() - n,
{
    if n < s.len() {
        assert(s.subrange(0, n + 1).drop_last() =~= s.subrange(0, n));
        assert(is_digit(s[n]));
        lemma_digits_value_grows(s, n + 1);
    } else {
        assert(s.subrange(0, n) =~= s);
    }
}

/// Whether `s[from..to]` is one or more ASCII decimal digits.
fn digits_between(s: &[u8], from: usize, to: usize) -> (r: bool)
    requires
        from <= to <= s@.len(),
    ensures
        r == all_digits(s@.subrange(from as int, to as int)),
{
    if from == to {
        return false;
    }
    let mut i: usize = from;
    while i < to
        invariant
            from <= i <= to <= s@.len(),
            forall|j: int| from <= j < i ==> is_digit(#[trigger] s@[j]),
        decreases to - i,
    {
        if !(48 <= s[i] && s[i] <= 57) {
            proof {
                assert(s@.subrange(from as int, to as int)[i - from] == s@[i as int]);
            }
            return false;
        }
        i = i + 1;
    }
    proof {
        assert forall|j: int| 0 <= j < (to - from) implies is_digit(
            #[trigger] s@.subrange(from as int, to as int)[j],
        ) by {
            assert(s@.subrange(from as int, to as int)[j] == s@[from + j]);
        }
    }
    true
}

/// The values of one entry, see [entry_values].
fn entry(s: &[u8]) -> (r: Result<Vec<u32>, RangeError>)
    ensures
        match entry_values(s@) {
            Ok(vs) => r matches Ok(v) && v@ == vs,
            Err(e) => r == Err::<Vec<u32>, RangeError>(e),
        },
{
    assert(s@.subrange(0, s@.len() as int) =~= s@);
    if digits_between(s, 0, s.len()) {
        return match parse_digits(s) {
            Some(v) => {
                let out = vec![v];
                assert(out@ =~= seq![v]);
                Ok(out)
            },
            None => Err(RangeError::InvalidNumber),
        };
    }
    // a range: the first dash splits the bounds
    let mut d: usize = 0;
    while d < s.len() && s[d] != 45
        invariant
            d <= s@.len(),
            forall|j: int| 0 <= j < d ==> s@[j] != 45,
        decreases s@.len() - d,
    {
        d = d + 1;
    }
    if d >= s.len() || !digits_between(s, 0, d) || !digits_between(s, d + 1, s.len()) {
        proof {
            assert forall|x: int| 0 <= x < s@.len() && s@[x] == 45 && all_digits(s@.subrange(0, x))
                && all_digits(s@.subrange(x + 1, s@.len() as int)) implies false by {
                if x > d {
                    assert(s@.subrange(0, x)[d as int] == s@[d as int]);
                    assert(!is_digit(s@[d as int]));
                }
            }
        }
        return Err(RangeError::InvalidRange);
    }
    proof {
        let x = choose|x: int|
            0 <= x < s@.len() && s@[x] == 45 && all_digits(s@.subrange(0, x)) && all_digits(
                s@.subrange(x + 1, s@.len() as int),
            );
        if x > d {
            assert(s@.subrange(0, x)[d as int] == s@[d as int]);
        }
        if x < d {
            assert(s@[x] != 45);
        }
        assert(x == d);
    }
    let start = parse_digits(vstd::slice::slice_subrange(s, 0, d));
    let end = parse_digits(vstd::slice::slice_subrange(s, d + 1, s.len()));
    match (start, end) {
        (Some(a), Some(b)) => {
            if a >= b {
                return Err(RangeError::InvalidRange);
            }
            let mut out: Vec<u32> = Vec::new();
            let mut v: u32 = a;
            loop
                invariant_except_break
                    a <= v <= b,
                    out@ =~= Seq::new((v - a) as nat, |i: int| (a + i) as u32),
                ensures
                    out@ =~= Seq::new((b - a + 1) as nat, |i: int| (a + i) as u32),
                decreases b - v,
            {
                out.push(v);
                if v == b {
                    break;
                }
                v = v + 1;
            }
            Ok(out)
        },
        _ => Err(RangeError::InvalidRangeValue),
    }
}

/// The values of a list of entries, or the error of its first entry that has one.
pub open spec fn ranges_values(list: Seq<Seq<u8>>) -> Result<Seq<u32>, RangeError>
    decreases list.len(),
{
    if list.len() == 0 {
        Ok(seq![])
    } else {
        match ranges_values(list.drop_last()) {
            Err(e) => Err(e),
            Ok(vs) => match entry_values(list.last()) {
                Err(e) => Err(e),
                Ok(ws) => Ok(vs + ws),
            },
        }
    }
}

/// The numbers a list of numbers (`7`) and ranges (`3-5`, both ends included) stands
/// for, in order.
pub fn parse_number_ranges(list: Vec<String>) -> (r: Result<Vec<u32>, RangeError>)
    ensures
        match ranges_values(list@.map_values(|s: String| encode_utf8(s@))) {
            Ok(vs) => r matches Ok(v) && v@ == vs,
            Err(e) => r == Err::<Vec<u32>, RangeError>(e),
        },
{
    let ghost entries = list@.map_values(|s: String| encode_utf8(s@));
    let mut values: Vec<u32> = Vec::new();
    let mut i: usize = 0;
    while i < list.len()
        invariant
            i <= list@.len(),
            entries == list@.map_values(|s: String| encode_utf8(s@)),
            ranges_values(entries.subrange(0, i as int)) matches Ok(vs) && values@ == vs,
        decreases list@.len() - i,
    {
        let bytes = list[i].as_str().as_bytes();
        proof {
            assert(entries.subrange(0, i as int + 1).drop_last() =~= entries.subrange(0, i as int));
            assert(entries.subrange(0, i as int + 1).last() == bytes@);
        }
        match entry(bytes) {
            Ok(vs) => {
                let mut vs = vs;
                values.append(&mut vs);
            },
            Err(e) => {
                proof {
                    lemma_ranges_error_stays(entries, i as int + 1);
                }
                return Err(e);
            },
        }
        i = i + 1;
    }
    proof {
        assert(entries.subrange(0, list@.len() as int) =~= entries);
    }
    Ok(values)
}

/// Once an entry has an error, the list has that error however it goes on.
proof fn lemma_ranges_error_stays(list: Seq<Seq<u8>>, n: int)
    requires
        0 <= n <= list.len(),
        ranges_values(list.subrange(0, n)) is Err,
    ensures
        ranges_values(list) == ranges_values(list.subrange(0, n)),
    decreases list.len() - n,
{
    if n < list.len() {
        assert(list.subrange(0, n + 1).drop_last() =~= list.subrange(0, n));
        lemma_ranges_error_stays(list, n + 1);
    } else {
        assert(list.subrange(0, n) =~= list);
    }
}


/// The bytes the filter writes of the first `n` packets when no time filter is
/// given: the packets whose apid passes, one after the other.
pub open spec fn kept_packets(
    packets: Seq<Packet>,
    n: nat,
    sel: Seq<Apid>,
    rej: Seq<Apid>,
    before: Option<i128>,
    after: Option<i128>,
) -> Seq<u8>
    decreases n,
{
    if n == 0 {
        seq![]
    } else {
        let prev = kept_packets(packets, (n - 1) as nat, sel, rej, before, after);
        let p = packets[n - 1];
        if time_passes(MIN_STAMP, before, after) && apid_passes(p.header.apid, sel, rej) {
            prev + p.data@
        } else {
            prev
        }
    }
}

/// Filter single packets, without grouping them: each is taken to be at
/// [MIN_STAMP], and written where [filter_keeps] keeps it.
pub fn filter_packets(
    packets: &[Packet],
    selected: &[Apid],
    rejected: &[Apid],
    before: Option<i128>,
    after: Option<i128>,
) -> (out: Vec<u8>)
    ensures
        out@ == kept_packets(packets@, packets@.len() as nat, selected@, rejected@, before, after),
{
    let mut out: Vec<u8> = Vec::new();
    let mut i: usize = 0;
    while i < packets.len()
        invariant
            i <= packets@.len(),
            out@ == kept_packets(packets@, i as nat, selected@, rejected@, before, after),
        decreases packets@.len() - i,
    {
        if filter_keeps(packets[i].header.apid, MIN_STAMP, selected, rejected, before, after) {
            out.extend_from_slice(packets[i].data.as_slice());
            proof {
                assert(out@ =~= kept_packets(packets@, i as nat, selected@, rejected@, before, after)
                    + packets@[i as int].data@);
            }
        }
        i = i + 1;
    }
    out
}

/// Whether the filter writes a group at time `stamp`: it starts a group, its time
/// could be decoded, and it passes the filters.
pub open spec fn group_kept(
    g: PacketGroup,
    stamp: Option<i128>,
    sel: Seq<Apid>,
    rej: Seq<Apid>,
    before: Option<i128>,
    after: Option<i128>,
) -> bool {
    &&& filter_group_starts(g)
    &&& stamp is Some
    &&& time_passes(stamp->0, before, after)
    &&& apid_passes(g.apid, sel, rej)
}

/// The bytes the filter writes of the first `n` groups, each at its time: the
/// groups it keeps, one after the other.
pub open spec fn kept_groups(
    groups: Seq<PacketGroup>,
    stamps: Seq<Option<i128>>,
    n: nat,
    sel: Seq<Apid>,
    rej: Seq<Apid>,
    before: Option<i128>,
    after: Option<i128>,
) -> Seq<u8>
    decreases n,
{
    if n == 0 {
        seq![]
    } else {
        let prev = kept_groups(groups, stamps, (n - 1) as nat, sel, rej, before, after);
        let g = groups[n - 1];
        if group_kept(g, stamps[n - 1], sel, rej, before, after) {
            prev + group_data(g.packets@)
        } else {
            prev
        }
    }
}

/// Filter packet groups by apid and time: `stamps` holds the time of each group's
/// first packet, `None` where it could not be decoded (such groups are dropped).
pub fn filter_groups(
    groups: &[PacketGroup],
    stamps: &[Option<i128>],
    selected: &[Apid],
    rejected: &[Apid],
    before: Option<i128>,
    after: Option<i128>,
) -> (out: Vec<u8>)
    requires
        stamps@.len() == groups@.len(),
        forall|j: int| 0 <= j < groups@.len() ==> group_data((#[trigger] groups@[j]).packets@).len() <= usize::MAX,
    ensures
        out@ == kept_groups(groups@, stamps@, groups@.len() as nat, selected@, rejected@, before, after),
{
    let mut out: Vec<u8> = Vec::new();
    let mut i: usize = 0;
    while i < groups.len()
        invariant
            i <= groups@.len(),
            stamps@.len() == groups@.len(),
            forall|j: int| 0 <= j < groups@.len() ==> group_data((#[trigger] groups@[j]).packets@).len() <= usize::MAX,
            out@ == kept_groups(groups@, stamps@, i as nat, selected@, rejected@, before, after),
        decreases groups@.len() - i,
    {
        let g = &groups[i];
        if group_starts(g) {
            match stamps[i] {
                Some(t) => {
                    if filter_keeps(g.apid, t, selected, rejected, before, after) {
                        let mut data = group_bytes(g);
                        out.append(&mut data);
                    }
                },
                None => {},
            }
        }
        i = i + 1;
    }
    out
}

} // verus!
