//! Merging packet groups of several packet files into one time-ordered stream.
use vstd::prelude::*;
use crate::spacepacket::packet::{packet_len, Apid, PacketGroup, PrimaryHeader};
use crate::spacepacket::error::Error;
use vstd::slice::{slice_subrange, slice_to_vec};

verus! {

broadcast use vstd::seq_lib::group_to_multiset_ensures;

/// A packet group that a merge may write: where its bytes are, and what orders and
/// identifies it.
#[derive(Debug, Clone, Copy, PartialEq, Eq, Structural)]
pub struct Ptr {
    /// Index of the input the group was read from
    pub file: usize,
    /// Offset of the group's first packet in its input
    pub offset: usize,
    /// Bytes of all packets of the group
    pub size: usize,
    /// Time of the group's first packet, in nanoseconds
    pub time: i128,
    pub apid: Apid,
    pub seqid: u16,
    /// Sets the order groups of the same time are written in
    pub order: Apid,
}

/// Total bytes of a sequence of packets, as their headers give them.
pub open spec fn packets_bytes(headers: Seq<PrimaryHeader>) -> int
    decreases headers.len(),
{
    if headers.len() == 0 {
        0
    } else {
        packets_bytes(headers.drop_last()) + packet_len(headers.last())
    }
}

/// The headers of a group's packets.
pub open spec fn group_headers(g: PacketGroup) -> Seq<PrimaryHeader> {
    g.packets@.map_values(|p: crate::spacepacket::packet::Packet| p.header)
}

/// Whether a group can be merged: it has packets and starts with the first packet
/// of a group or a standalone packet.
pub open spec fn group_starts(g: PacketGroup) -> bool {
    g.packets@.len() > 0 && (g.packets@[0].header.sequence_flags == PrimaryHeader::SEQ_FIRST
        || g.packets@[0].header.sequence_flags == PrimaryHeader::SEQ_UNSEGMENTED)
}

/// The pointer to a group read from input `file` whose first packet has time
/// `time`, or `None` for a group that does not start a group (incomplete groups
/// are dropped).
pub fn group_pointer(g: &PacketGroup, file: usize, time: i128) -> (r: Option<Ptr>)
    requires
        packets_bytes(group_headers(*g)) <= usize::MAX,
    ensures
        !group_starts(*g) ==> r is None,
        group_starts(*g) ==> r == Some(
            Ptr {
                file,
                offset: g.packets@[0].offset,
                size: packets_bytes(group_headers(*g)) as usize,
                time,
                apid: g.packets@[0].header.apid,
                seqid: g.packets@[0].header.sequence_id,
                order: g.packets@[0].header.apid,
            },
        ),
{
    if g.packets.len() == 0 || !(g.packets[0].is_first() || g.packets[0].is_standalone()) {
        // Drop incomplete packet groups
        return None;
    }
    let ghost hs = group_headers(*g);
    let mut total: usize = 0;
    let mut i: usize = 0;
    while i < g.packets.len()
        invariant
            i <= g.packets@.len(),
            hs == group_headers(*g),
            hs.len() == g.packets@.len(),
            packets_bytes(hs) <= usize::MAX,
            total == packets_bytes(hs.subrange(0, i as int)),
        decreases g.packets@.len() - i,
    {
        proof {
            assert(hs.subrange(0, i as int + 1).drop_last() =~= hs.subrange(0, i as int));
            lemma_packets_bytes_prefix(hs, i as int + 1);
        }
        total = total + PrimaryHeader::LEN + g.packets[i].header.len_minus1 as usize + 1;
        i = i + 1;
    }
    proof {
        assert(hs.subrange(0, hs.len() as int) =~= hs);
    }
    let first = &g.packets[0];
    Some(
        Ptr {
            file,
            offset: first.offset,
            size: total,
            time,
            apid: first.header.apid,
            seqid: first.header.sequence_id,
            order: first.header.apid,
        },
    )
}

/// The bytes of a prefix of packets are at most those of all of them.
proof fn lemma_packets_bytes_prefix(hs: Seq<PrimaryHeader>, n: int)
    requires
        0 <= n <= hs.len(),
    ensures
        packets_bytes(hs.subrange(0, n)) <= packets_bytes(hs),
    decreases hs.len() - n,
{
    if n < hs.len() {
        assert(hs.subrange(0, n + 1).drop_last() =~= hs.subrange(0, n));
        assert(packets_bytes(hs.subrange(0, n + 1)) == packets_bytes(hs.subrange(0, n))
            + packet_len(hs.subrange(0, n + 1).last()));
        lemma_packets_bytes_prefix(hs, n + 1);
    } else {
        assert(hs.subrange(0, n) =~= hs);
    }
}

/// The sort value of an apid: the position of its last entry in `order`, or the
/// apid itself where `order` does not hold it.
pub open spec fn order_of(order: Seq<Apid>, apid: Apid) -> Apid
    decreases order.len(),
{
    if order.len() == 0 {
        apid
    } else if order.last() == apid {
        (order.len() - 1) as Apid
    } else {
        order_of(order.drop_last(), apid)
    }
}

/// The sort value of `apid` under `order`.
pub fn merge_order(order: &[Apid], apid: Apid) -> (r: Apid)
    requires
        order@.len() <= Apid::MAX as int + 1,
    ensures
        r == order_of(order@, apid),
{
    let mut i: usize = order.len();
    assert(order@.subrange(0, i as int) =~= order@);
    while i > 0
        invariant
            i <= order@.len(),
            order@.len() <= Apid::MAX as int + 1,
            order_of(order@, apid) == order_of(order@.subrange(0, i as int), apid),
        decreases i,
    {
        let ghost pre = order@.subrange(0, i as int);
        proof {
            assert(pre.drop_last() =~= order@.subrange(0, i - 1));
        }
        if order[i - 1] == apid {
            return (i - 1) as Apid;
        }
        i = i - 1;
    }
    proof {
        assert(order@.subrange(0, 0) =~= Seq::<Apid>::empty());
    }
    apid
}

/// Whether a group is kept: its time is in `[from, to)` and, where `apids` is not
/// empty, its apid is one of them.
pub open spec fn kept(p: Ptr, from: i128, to: i128, apids: Seq<Apid>) -> bool {
    from <= p.time < to && (apids.len() == 0 || apids.contains(p.apid))
}

/// Groups are written by time, then by the sort value of their apid, then by apid
/// and sequence id.
pub open spec fn ptr_le(a: Ptr, b: Ptr) -> bool {
    ||| a.time < b.time
    ||| a.time == b.time && a.order < b.order
    ||| a.time == b.time && a.order == b.order && a.apid < b.apid
    ||| a.time == b.time && a.order == b.order && a.apid == b.apid && a.seqid <= b.seqid
}

/// Whether two groups are the same group: same apid, time and sequence id.
pub open spec fn same_group(a: Ptr, b: Ptr) -> bool {
    a.apid == b.apid && a.time == b.time && a.seqid == b.seqid
}

/// Sorts pointers with `sort_by_key` of std on the key `(time, order, apid, seqid)`,
/// whose tuple order is lexicographic: the result is a permutation of the input in
/// that order.
#[verifier::external_body]
fn sort_ptrs(v: &mut Vec<Ptr>)
    ensures
        final(v)@.to_multiset() == old(v)@.to_multiset(),
        forall|i: int, j: int|
            0 <= i < j < final(v)@.len() ==> ptr_le(#[trigger] final(v)@[i], #[trigger] final(v)@[j]),
{
    v.sort_by_key(|p| (p.time, p.order, p.apid, p.seqid));
}

/// Whether `p` has the same group as some pointer of `s`.
pub open spec fn has_partner(s: Seq<Ptr>, p: Ptr) -> bool {
    exists|a: int| 0 <= a < s.len() && same_group(s[a], p)
}

/// The pointer a kept candidate becomes: the candidate with the sort value of its
/// apid.
pub open spec fn ordered(c: Ptr, order: Seq<Apid>) -> Ptr {
    Ptr { order: order_of(order, c.apid), ..c }
}

/// Whether `p` is what one of the first `k` candidates becomes, if kept.
pub open spec fn from_candidate(
    p: Ptr,
    cands: Seq<Ptr>,
    k: int,
    order: Seq<Apid>,
    from: i128,
    to: i128,
    apids: Seq<Apid>,
) -> bool {
    exists|kk: int| 0 <= kk < k && kept(cands[kk], from, to, apids) && p == ordered(cands[kk], order)
}

/// Two pointers agree on every part of the sort key.
pub open spec fn key_eq(a: Ptr, b: Ptr) -> bool {
    a.time == b.time && a.order == b.order && a.apid == b.apid && a.seqid == b.seqid
}

/// The groups to merge, in the order to write them: those of `candidates` that are
/// kept, each group once, ordered by time and then by the apid `order`.
///
/// Of candidates that are the same group (same apid, time and sequence id) one is
/// written.
pub fn merge_index(candidates: Vec<Ptr>, order: &[Apid], from: i128, to: i128, apids: &[Apid]) -> (r:
    Vec<Ptr>)
    requires
        order@.len() <= Apid::MAX as int + 1,
    ensures
        forall|i: int, j: int| 0 <= i < j < r@.len() ==> ptr_le(#[trigger] r@[i], #[trigger] r@[j]),
        forall|i: int, j: int|
            0 <= i < j < r@.len() ==> !same_group(#[trigger] r@[i], #[trigger] r@[j]),
        forall|i: int|
            0 <= i < r@.len() ==> from_candidate(
                #[trigger] r@[i],
                candidates@,
                candidates@.len() as int,
                order@,
                from,
                to,
                apids@,
            ),
        forall|k: int|
            0 <= k < candidates@.len() && kept(#[trigger] candidates@[k], from, to, apids@)
                ==> has_partner(r@, candidates@[k]),
{
    let mut index: Vec<Ptr> = Vec::new();
    let mut k: usize = 0;
    while k < candidates.len()
        invariant
            k <= candidates@.len(),
            order@.len() <= Apid::MAX as int + 1,
            forall|i: int|
                0 <= i < index@.len() ==> from_candidate(
                    #[trigger] index@[i],
                    candidates@,
                    k as int,
                    order@,
                    from,
                    to,
                    apids@,
                ),
            forall|i: int|
                0 <= i < index@.len() ==> (#[trigger] index@[i]).order == order_of(order@, index@[i].apid),
            forall|kk: int|
                0 <= kk < k && kept(#[trigger] candidates@[kk], from, to, apids@) ==> has_partner(
                    index@,
                    candidates@[kk],
                ),
        decreases candidates@.len() - k,
    {
        let c = candidates[k];
        // enforce time range, inclusive on the from, exclusive on to
        let in_range = from <= c.time && c.time < to;
        let mut wanted = apids.len() == 0;
        if !wanted {
            let mut j: usize = 0;
            while j < apids.len()
                invariant
                    j <= apids@.len(),
                    wanted <==> exists|jj: int| 0 <= jj < j && apids@[jj] == c.apid,
                decreases apids@.len() - j,
            {
                if apids[j] == c.apid {
                    wanted = true;
                }
                j = j + 1;
            }
            proof {
                if apids@.contains(c.apid) {
                    let jj = choose|jj: int| 0 <= jj < apids@.len() && apids@[jj] == c.apid;
                    assert(apids@[jj] == c.apid);
                }
            }
        }
        let ghost before = index@;
        if in_range && wanted {
            let p = Ptr { order: merge_order(order, c.apid), ..c };
            index.push(p);
            proof {
                assert(index@[before.len() as int] == p);
                assert(p == ordered(candidates@[k as int], order@));
            }
        }
        proof {
            assert forall|i: int| 0 <= i < index@.len() implies from_candidate(
                #[trigger] index@[i],
                candidates@,
                k + 1,
                order@,
                from,
                to,
                apids@,
            ) by {
                if i < before.len() {
                    assert(index@[i] == before[i]);
                    assert(from_candidate(before[i], candidates@, k as int, order@, from, to, apids@));
                } else {
                    assert(kept(candidates@[k as int], from, to, apids@));
                }
            }
            assert forall|i: int| 0 <= i < index@.len() implies (#[trigger] index@[i]).order
                == order_of(order@, index@[i].apid) by {
                if i < before.len() {
                    assert(index@[i] == before[i]);
                }
            }
            assert forall|kk: int|
                0 <= kk < k + 1 && kept(#[trigger] candidates@[kk], from, to, apids@) implies has_partner(
                index@,
                candidates@[kk],
            ) by {
                if kk < k {
                    let i = choose|i: int| 0 <= i < before.len() && same_group(before[i], candidates@[kk]);
                    assert(index@[i] == before[i]);
                } else {
                    assert(same_group(index@[before.len() as int], candidates@[kk]));
                }
            }
        }
        k = k + 1;
    }
    // Sort by time and apid, or the order index if set
    let ghost unsorted = index@;
    sort_ptrs(&mut index);
    proof {
        assert forall|i: int| 0 <= i < index@.len() implies unsorted.contains(#[trigger] index@[i])
            && index@[i].order == order_of(order@, index@[i].apid) by {
            assert(index@.to_multiset().count(index@[i]) > 0);
            let x = choose|x: int| 0 <= x < unsorted.len() && unsorted[x] == index@[i];
            assert(unsorted[x].order == order_of(order@, unsorted[x].apid));
        }
        assert forall|i: int| 0 <= i < unsorted.len() implies index@.contains(#[trigger] unsorted[i]) by {
            assert(unsorted.to_multiset().count(unsorted[i]) > 0);
        }
    }
    // Keep the first pointer of each run of the same group
    let mut out: Vec<Ptr> = Vec::new();
    let mut i: usize = 0;
    while i < index.len()
        invariant
            i <= index@.len(),
            forall|a: int, b: int|
                0 <= a < b < index@.len() ==> ptr_le(#[trigger] index@[a], #[trigger] index@[b]),
            forall|a: int| 0 <= a < index@.len() ==> unsorted.contains(#[trigger] index@[a]),
            forall|a: int|
                0 <= a < index@.len() ==> (#[trigger] index@[a]).order == order_of(
                    order@,
                    index@[a].apid,
                ),
            forall|a: int|
                0 <= a < out@.len() ==> (#[trigger] out@[a]).order == order_of(
                    order@,
                    out@[a].apid,
                ),
            forall|a: int, b: int|
                0 <= a < b < out@.len() ==> ptr_le(#[trigger] out@[a], #[trigger] out@[b]),
            forall|a: int, b: int|
                0 <= a < b < out@.len() ==> !same_group(#[trigger] out@[a], #[trigger] out@[b]),
            forall|a: int| 0 <= a < out@.len() ==> unsorted.contains(#[trigger] out@[a]),
            out@.len() <= i,
            i > 0 ==> out@.len() > 0 && key_eq(out@.last(), index@[i - 1]),
            forall|b: int| 0 <= b < i ==> #[trigger] has_partner(out@, index@[b]),
        decreases index@.len() - i,
    {
        let p = index[i];
        proof {
            assert(unsorted.contains(index@[i as int]));
            assert(p.order == order_of(order@, p.apid));
        }
        let mut dup = false;
        if out.len() > 0 {
            let q = out[out.len() - 1];
            dup = q.apid == p.apid && q.time == p.time && q.seqid == p.seqid;
        }
        let ghost before = out@;
        if !dup {
            out.push(p);
            proof {
                assert forall|a: int, b: int| 0 <= a < b < out@.len() implies ptr_le(
                    #[trigger] out@[a],
                    #[trigger] out@[b],
                ) && !same_group(out@[a], out@[b]) by {
                    if b == before.len() {
                        assert(out@[a] == before[a]);
                        assert(out@[b] == p);
                        let l = before[before.len() - 1];
                        assert(ptr_le(index@[i - 1], index@[i as int]));
                        if a < before.len() - 1 {
                            assert(ptr_le(before[a], l));
                        }
                        assert(before[a].order == order_of(order@, before[a].apid));
                        assert(l.order == order_of(order@, l.apid));
                    } else {
                        assert(out@[a] == before[a]);
                        assert(out@[b] == before[b]);
                    }
                }
            }
        }
        proof {
            assert forall|b: int| 0 <= b < i + 1 implies #[trigger] has_partner(out@, index@[b]) by {
                if b < i {
                    assert(has_partner(before, index@[b]));
                    let a = choose|a: int| 0 <= a < before.len() && same_group(before[a], index@[b]);
                    assert(out@[a] == before[a]);
                } else if dup {
                    assert(same_group(out@[out@.len() - 1], index@[b]));
                } else {
                    assert(same_group(out@[out@.len() - 1], index@[b]));
                }
            }
        }
        i = i + 1;
    }
    proof {
        assert forall|i: int| 0 <= i < out@.len() implies from_candidate(
            #[trigger] out@[i],
            candidates@,
            candidates@.len() as int,
            order@,
            from,
            to,
            apids@,
        ) by {
            assert(unsorted.contains(out@[i]));
            let x = choose|x: int| 0 <= x < unsorted.len() && unsorted[x] == out@[i];
            assert(from_candidate(unsorted[x], candidates@, candidates@.len() as int, order@, from, to, apids@));
        }
        assert forall|kk: int|
            0 <= kk < candidates@.len() && kept(#[trigger] candidates@[kk], from, to, apids@) implies has_partner(
            out@,
            candidates@[kk],
        ) by {
            let x = choose|x: int| 0 <= x < unsorted.len() && same_group(unsorted[x], candidates@[kk]);
            assert(index@.contains(unsorted[x]));
            let b = choose|b: int| 0 <= b < index@.len() && index@[b] == unsorted[x];
            assert(has_partner(out@, index@[b]));
            let a = choose|a: int| 0 <= a < out@.len() && same_group(out@[a], index@[b]);
            assert(same_group(out@[a], candidates@[kk]));
        }
    }
    out
}


/// Whether the bytes a pointer points to lie within the inputs.
pub open spec fn ptr_in(files: Seq<Vec<u8>>, p: Ptr) -> bool {
    p.file < files.len() && p.offset + p.size <= files[p.file as int]@.len()
}

/// The bytes of the first `n` pointed-to groups, one after the other.
pub open spec fn merged(files: Seq<Vec<u8>>, index: Seq<Ptr>, n: nat) -> Seq<u8>
    decreases n,
{
    if n == 0 {
        seq![]
    } else {
        let p = index[n - 1];
        merged(files, index, (n - 1) as nat) + files[p.file as int]@.subrange(p.offset as int, p.offset + p.size)
    }
}

/// The merged output: the bytes of each group of `index`, in order, read from the
/// input it points to.
///
/// # Errors
/// [Error::NotEnoughData] if a pointer reaches past the end of its input (or names
/// no input).
pub fn merged_bytes(files: &Vec<Vec<u8>>, index: &[Ptr]) -> (r: Result<Vec<u8>, Error>)
    ensures
        r is Ok <==> forall|i: int| 0 <= i < index@.len() ==> ptr_in(files@, #[trigger] index@[i]),
        r matches Ok(b) ==> b@ == merged(files@, index@, index@.len() as nat),
{
    let mut out: Vec<u8> = Vec::new();
    let mut i: usize = 0;
    while i < index.len()
        invariant
            i <= index@.len(),
            forall|j: int| 0 <= j < i ==> ptr_in(files@, #[trigger] index@[j]),
            out@ == merged(files@, index@, i as nat),
        decreases index@.len() - i,
    {
        let p = index[i];
        if p.file >= files.len() {
            return Err(Error::NotEnoughData { actual: 0, minimum: p.size });
        }
        let data = &files[p.file];
        if p.offset > data.len() || p.size > data.len() - p.offset {
            let actual = if p.offset > data.len() {
                0
            } else {
                data.len() - p.offset
            };
            return Err(Error::NotEnoughData { actual, minimum: p.size });
        }
        out.extend_from_slice(slice_subrange(data.as_slice(), p.offset, p.offset + p.size));
        proof {
            assert(out@ =~= merged(files@, index@, i as nat) + files@[p.file as int]@.subrange(
                p.offset as int,
                p.offset + p.size,
            ));
        }
        i = i + 1;
    }
    Ok(out)
}


/// The pointer of a group of input `file` whose first packet has time `time`, as
/// [group_pointer] gives it.
pub open spec fn spec_group_pointer(g: PacketGroup, file: usize, time: i128) -> Option<Ptr> {
    if group_starts(g) {
        Some(
            Ptr {
                file,
                offset: g.packets@[0].offset,
                size: packets_bytes(group_headers(g)) as usize,
                time,
                apid: g.packets@[0].header.apid,
                seqid: g.packets@[0].header.sequence_id,
                order: g.packets@[0].header.apid,
            },
        )
    } else {
        None
    }
}

/// The pointers of the first `n` groups of input `file` that start a group, in order.
pub open spec fn file_pointers(groups: Seq<PacketGroup>, file: usize, times: Seq<i128>, n: nat) -> Seq<Ptr>
    decreases n,
{
    if n == 0 {
        seq![]
    } else {
        let prev = file_pointers(groups, file, times, (n - 1) as nat);
        match spec_group_pointer(groups[n - 1], file, times[n - 1]) {
            Some(p) => prev.push(p),
            None => prev,
        }
    }
}

/// The merge candidates of input `file`: a pointer for each of its groups that
/// starts a group, `times` holding the time of each group's first packet.
pub fn group_pointers(groups: &[PacketGroup], file: usize, times: &[i128]) -> (r: Vec<Ptr>)
    requires
        times@.len() == groups@.len(),
        forall|j: int| 0 <= j < groups@.len() ==> packets_bytes(group_headers(#[trigger] groups@[j])) <= usize::MAX,
    ensures
        r@ == file_pointers(groups@, file, times@, groups@.len() as nat),
{
    let mut r: Vec<Ptr> = Vec::new();
    let mut i: usize = 0;
    while i < groups.len()
        invariant
            i <= groups@.len(),
            times@.len() == groups@.len(),
            forall|j: int| 0 <= j < groups@.len() ==> packets_bytes(group_headers(#[trigger] groups@[j])) <= usize::MAX,
            r@ == file_pointers(groups@, file, times@, i as nat),
        decreases groups@.len() - i,
    {
        match group_pointer(&groups[i], file, times[i]) {
            Some(p) => {
                r.push(p);
            },
            None => {},
        }
        i = i + 1;
    }
    r
}


/// Latest time a merge keeps when no other is given: 2200-01-01, in nanoseconds
/// since the start of 1900 (UTC), exclusive.
pub const DEFAULT_TO: i128 = 9467107200000000000;

/// Whether `r` is an index that [merge_index] may give for these arguments.
pub open spec fn merge_index_ok(
    r: Seq<Ptr>,
    candidates: Seq<Ptr>,
    order: Seq<Apid>,
    from: i128,
    to: i128,
    apids: Seq<Apid>,
) -> bool {
    &&& forall|i: int, j: int| 0 <= i < j < r.len() ==> ptr_le(#[trigger] r[i], #[trigger] r[j])
    &&& forall|i: int, j: int| 0 <= i < j < r.len() ==> !same_group(#[trigger] r[i], #[trigger] r[j])
    &&& forall|i: int|
        0 <= i < r.len() ==> from_candidate(#[trigger] r[i], candidates, candidates.len() as int, order, from, to, apids)
    &&& forall|k: int| 0 <= k < candidates.len() && kept(#[trigger] candidates[k], from, to, apids) ==> has_partner(
        r,
        candidates[k],
    )
}

/// The candidates of the first `n` inputs: those of input 0, then of input 1, and so on.
pub open spec fn all_pointers(groups: Seq<Vec<PacketGroup>>, times: Seq<Vec<i128>>, n: nat) -> Seq<Ptr>
    decreases n,
{
    if n == 0 {
        seq![]
    } else {
        all_pointers(groups, times, (n - 1) as nat) + file_pointers(
            groups[n - 1]@,
            (n - 1) as usize,
            times[n - 1]@,
            groups[n - 1]@.len() as nat,
        )
    }
}

/// Merges the packet groups of several packet files into one stream ordered by time
/// and apid, dropping duplicate groups.
pub struct Merger {
    order: Vec<Apid>,
    from: i128,
    to: i128,
    apids: Vec<Apid>,
}

impl Merger {
    /// The apid order groups of the same time are written in.
    pub closed spec fn order_view(&self) -> Seq<Apid> {
        self.order@
    }

    /// Earliest time kept, inclusive, in nanoseconds since 1900 (UTC).
    pub closed spec fn from_view(&self) -> i128 {
        self.from
    }

    /// Latest time kept, exclusive, in nanoseconds since 1900 (UTC).
    pub closed spec fn to_view(&self) -> i128 {
        self.to
    }

    /// The apids kept; all where empty.
    pub closed spec fn apids_view(&self) -> Seq<Apid> {
        self.apids@
    }

    /// A merger that keeps every apid from 1900 up to [DEFAULT_TO], in apid order.
    pub fn new() -> (m: Self)
        ensures
            m.order_view() == Seq::<Apid>::empty(),
            m.from_view() == 0,
            m.to_view() == DEFAULT_TO,
            m.apids_view() == Seq::<Apid>::empty(),
    {
        Merger { order: Vec::new(), from: 0, to: DEFAULT_TO, apids: Vec::new() }
    }

    /// Write groups of the same time in the order of `order`; apids it does not list
    /// sort by their value after its position.
    pub fn with_apid_order(self, order: &[Apid]) -> (m: Self)
        requires
            order@.len() <= Apid::MAX as int + 1,
        ensures
            m.order_view() == order@,
            m.from_view() == self.from_view(),
            m.to_view() == self.to_view(),
            m.apids_view() == self.apids_view(),
    {
        Merger { order: slice_to_vec(order), ..self }
    }

    /// Drop groups before `from`, in microseconds since 1900 (UTC).
    pub fn with_from(self, from: u64) -> (m: Self)
        ensures
            m.from_view() == from * 1000,
            m.order_view() == self.order_view(),
            m.to_view() == self.to_view(),
            m.apids_view() == self.apids_view(),
    {
        Merger { from: from as i128 * 1000, ..self }
    }

    /// Drop groups at or after `to`, in microseconds since 1900 (UTC).
    pub fn with_to(self, to: u64) -> (m: Self)
        ensures
            m.to_view() == to * 1000,
            m.order_view() == self.order_view(),
            m.from_view() == self.from_view(),
            m.apids_view() == self.apids_view(),
    {
        Merger { to: to as i128 * 1000, ..self }
    }

    /// Keep only groups of these apids.
    pub fn with_apids(self, apids: &[Apid]) -> (m: Self)
        ensures
            m.apids_view() == apids@,
            m.order_view() == self.order_view(),
            m.from_view() == self.from_view(),
            m.to_view() == self.to_view(),
    {
        Merger { apids: slice_to_vec(apids), ..self }
    }

    /// The merged stream of `files`: `groups[f]` are the packet groups of `files[f]`
    /// and `times[f]` the times of their first packets. The groups kept are written
    /// in an order [merge_index] gives, each read from the input it points to.
    ///
    /// # Errors
    /// [Error::NotEnoughData] if a group reaches past the end of its input.
    pub fn merge(&self, files: &Vec<Vec<u8>>, groups: &Vec<Vec<PacketGroup>>, times: &Vec<Vec<i128>>) -> (r: Result<
        Vec<u8>,
        Error,
    >)
        requires
            self.order_view().len() <= Apid::MAX as int + 1,
            times@.len() == groups@.len(),
            forall|f: int| 0 <= f < groups@.len() ==> (#[trigger] times@[f])@.len() == groups@[f]@.len(),
            forall|f: int, j: int|
                0 <= f < groups@.len() && 0 <= j < groups@[f]@.len() ==> packets_bytes(
                    group_headers(#[trigger] groups@[f]@[j]),
                ) <= usize::MAX,
        ensures
            exists|idx: Seq<Ptr>|
                {
                    &&& #[trigger] merge_index_ok(
                        idx,
                        all_pointers(groups@, times@, groups@.len() as nat),
                        self.order_view(),
                        self.from_view(),
                        self.to_view(),
                        self.apids_view(),
                    )
                    &&& (r is Ok <==> forall|i: int| 0 <= i < idx.len() ==> ptr_in(files@, #[trigger] idx[i]))
                    &&& (r matches Ok(b) ==> b@ == merged(files@, idx, idx.len()))
                },
    {
        let mut candidates: Vec<Ptr> = Vec::new();
        let mut f: usize = 0;
        while f < groups.len()
            invariant
                f <= groups@.len(),
                times@.len() == groups@.len(),
                forall|f: int| 0 <= f < groups@.len() ==> (#[trigger] times@[f])@.len() == groups@[f]@.len(),
                forall|f: int, j: int|
                    0 <= f < groups@.len() && 0 <= j < groups@[f]@.len() ==> packets_bytes(
                        group_headers(#[trigger] groups@[f]@[j]),
                    ) <= usize::MAX,
                candidates@ == all_pointers(groups@, times@, f as nat),
            decreases groups@.len() - f,
        {
            let gs = groups[f].as_slice();
            proof {
                assert forall|j: int| 0 <= j < gs@.len() implies packets_bytes(group_headers(#[trigger] gs@[j]))
                    <= usize::MAX by {
                    assert(gs@[j] == groups@[f as int]@[j]);
                }
                assert(times@[f as int]@.len() == gs@.len());
            }
            let mut ps = group_pointers(gs, f, times[f].as_slice());
            candidates.append(&mut ps);
            f = f + 1;
        }
        let index = merge_index(candidates, self.order.as_slice(), self.from, self.to, self.apids.as_slice());
        let r = merged_bytes(files, index.as_slice());
        proof {
            assert(merge_index_ok(
                index@,
                all_pointers(groups@, times@, groups@.len() as nat),
                self.order_view(),
                self.from_view(),
                self.to_view(),
                self.apids_view(),
            ));
        }
        r
    }
}

} // verus!
