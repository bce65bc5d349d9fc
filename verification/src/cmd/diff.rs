//! Comparison of the packets of two packet files.
use vstd::prelude::*;
use vstd::slice::slice_subrange;
use crate::spacepacket::packet::{Apid, Packet};

verus! {

broadcast use vstd::seq_lib::group_to_multiset_ensures;

/// One bit step of the reflected CRC-32 register: shift right, and where a one
/// bit falls out, xor in the reflected polynomial `0x04C11DB7`.
pub open spec fn crc32_bit(crc: u32) -> u32 {
    if crc & 1u32 == 1u32 {
        (crc >> 1u32) ^ 0xEDB8_8320u32
    } else {
        crc >> 1u32
    }
}

/// The register after byte `b`: the byte xored into the low bits, then eight bit
/// steps.
pub open spec fn crc32_byte(crc: u32, b: u8) -> u32 {
    let c = crc ^ (b as u32);
    crc32_bit(crc32_bit(crc32_bit(crc32_bit(crc32_bit(crc32_bit(crc32_bit(crc32_bit(c))))))))
}

/// The register after `data`, started with all bits set.
pub open spec fn crc32_register(data: Seq<u8>) -> u32
    decreases data.len(),
{
    if data.len() == 0 {
        0xFFFF_FFFFu32
    } else {
        crc32_byte(crc32_register(data.drop_last()), data.last())
    }
}

/// The CRC-32/ISO-HDLC checksum of `data`: the reflected register, inverted at the
/// end.
pub open spec fn crc32_iso_hdlc(data: Seq<u8>) -> u32 {
    crc32_register(data) ^ 0xFFFF_FFFFu32
}

/// Calls `crc::Crc::<u32>::checksum` with the `CRC_32_ISO_HDLC` algorithm (width 32,
/// polynomial `0x04C11DB7`, reflected in and out, all bits set at the start and
/// inverted at the end), whose value is the one [crc32_iso_hdlc] defines.
#[verifier::external_body]
fn checksum(data: &[u8]) -> (r: u32)
    ensures
        r == crc32_iso_hdlc(data@),
{
    crc::Crc::<u32>::new(&crc::CRC_32_ISO_HDLC).checksum(data)
}

/// What identifies a packet when two files are compared: its apid, its sequence id,
/// and the checksum of its user data.
pub type Key = (u16, u16, u32);

/// The key of a packet.
pub open spec fn spec_key(p: Packet) -> Key {
    (p.header.apid, p.header.sequence_id, crc32_iso_hdlc(p.data@.subrange(6, p.data@.len() as int)))
}

/// The key of a packet.
pub fn packet_key(p: &Packet) -> (k: Key)
    requires
        p.data@.len() >= 6,
    ensures
        k == spec_key(*p),
{
    (p.header.apid, p.header.sequence_id, checksum(slice_subrange(p.data.as_slice(), 6, p.data.len())))
}

/// Keys in lexicographic order, as std orders tuples.
pub open spec fn key_lt(a: Key, b: Key) -> bool {
    ||| a.0 < b.0
    ||| a.0 == b.0 && a.1 < b.1
    ||| a.0 == b.0 && a.1 == b.1 && a.2 < b.2
}

/// Sorts keys with `sort_unstable` of std, in the lexicographic order of tuples: the
/// result is a permutation of the input in that order.
#[verifier::external_body]
fn sort_keys(v: &mut Vec<Key>)
    ensures
        final(v)@.to_multiset() == old(v)@.to_multiset(),
        forall|i: int, j: int|
            0 <= i < j < final(v)@.len() ==> !key_lt(#[trigger] final(v)@[j], #[trigger] final(v)@[i]),
{
    v.sort_unstable();
}

/// Number of packets of `s` with apid `a`.
pub open spec fn count_apid(s: Seq<Packet>, a: Apid) -> nat
    decreases s.len(),
{
    if s.len() == 0 {
        0
    } else {
        count_apid(s.drop_last(), a) + if s.last().header.apid == a {
            1nat
        } else {
            0
        }
    }
}

/// The counts of a comparison: for each apid, the packets of it on the left and on
/// the right.
pub type Counts = Seq<(Apid, usize, usize)>;

/// Whether counts are strictly ordered by apid.
pub open spec fn counts_sorted(c: Counts) -> bool {
    forall|i: int, j: int| 0 <= i < j < c.len() ==> (#[trigger] c[i]).0 < (#[trigger] c[j]).0
}

/// Whether `c` counts exactly the apids of `left` and `right`, each with its number
/// of packets on either side.
pub open spec fn counts_exact(c: Counts, left: Seq<Packet>, right: Seq<Packet>) -> bool {
    represents(c, |a: Apid| count_apid(left, a), |a: Apid| count_apid(right, a))
}

/// The result of comparing two packet files.
#[derive(Debug, Clone)]
pub struct DiffReport {
    /// Per apid, the number of packets on the left and on the right, by apid
    pub counts: Vec<(Apid, usize, usize)>,
    /// The keys of packets on the left that are not on the right, in order
    pub left_only: Vec<Key>,
    /// The keys of packets on the right that are not on the left, in order
    pub right_only: Vec<Key>,
}

/// Why two packet files cannot be compared.
#[derive(Debug, Clone, Copy, PartialEq, Eq, Structural)]
pub enum DiffError {
    /// Neither file holds a packet.
    NoPackets,
}

impl DiffReport {
    /// Whether the files differ in the number of packets of some apid.
    pub fn mismatch(&self) -> (r: bool)
        ensures
            r == exists|i: int| 0 <= i < self.counts@.len() && (#[trigger] self.counts@[i]).1 != self.counts@[i].2,
    {
        let mut i: usize = 0;
        while i < self.counts.len()
            invariant
                i <= self.counts@.len(),
                forall|j: int| 0 <= j < i ==> (#[trigger] self.counts@[j]).1 == self.counts@[j].2,
            decreases self.counts@.len() - i,
        {
            if self.counts[i].1 != self.counts[i].2 {
                return true;
            }
            i = i + 1;
        }
        false
    }
}

/// Whether counts `c` hold, for each apid with packets on either side, the numbers
/// `lc` and `rc` give for it.
pub open spec fn represents(c: Counts, lc: spec_fn(Apid) -> nat, rc: spec_fn(Apid) -> nat) -> bool {
    &&& forall|i: int| 0 <= i < c.len() ==> (#[trigger] c[i]).1 == lc(c[i].0) && c[i].2 == rc(c[i].0)
    &&& forall|a: Apid| #[trigger] has_apid(c, a) <==> (lc(a) > 0 || rc(a) > 0)
}

/// Whether counts `c` have an entry for `a`.
pub open spec fn has_apid(c: Counts, a: Apid) -> bool {
    exists|i: int| 0 <= i < c.len() && c[i].0 == a
}

/// `f` with one more at `apid` if `bump`.
pub open spec fn bumped(f: spec_fn(Apid) -> nat, apid: Apid, bump: bool) -> spec_fn(Apid) -> nat {
    |a: Apid| f(a) + if bump && a == apid {
        1nat
    } else {
        0
    }
}

/// Count one more packet of `apid`, on the left or the right.
#[verifier::rlimit(40)]
fn count_one(
    counts: &mut Vec<(Apid, usize, usize)>,
    apid: Apid,
    on_left: bool,
    lc: Ghost<spec_fn(Apid) -> nat>,
    rc: Ghost<spec_fn(Apid) -> nat>,
)
    requires
        counts_sorted(old(counts)@),
        represents(old(counts)@, lc@, rc@),
        on_left ==> lc@(apid) + 1 <= usize::MAX,
        !on_left ==> rc@(apid) + 1 <= usize::MAX,
    ensures
        counts_sorted(final(counts)@),
        represents(final(counts)@, bumped(lc@, apid, on_left), bumped(rc@, apid, !on_left)),
{
    let ghost lc2 = bumped(lc@, apid, on_left);
    let ghost rc2 = bumped(rc@, apid, !on_left);
    let mut pos: usize = 0;
    while pos < counts.len() && counts[pos].0 < apid
        invariant
            pos <= counts@.len(),
            forall|i: int| 0 <= i < pos ==> (#[trigger] counts@[i]).0 < apid,
        decreases counts@.len() - pos,
    {
        pos = pos + 1;
    }
    let ghost old_c = counts@;
    proof {
        assert forall|i: int| pos <= i < old_c.len() implies (#[trigger] old_c[i]).0 >= apid by {
            if i > pos {
                assert(old_c[pos as int].0 < old_c[i].0);
            }
        }
    }
    if pos < counts.len() && counts[pos].0 == apid {
        let (a, l, r) = counts[pos];
        if on_left {
            counts.set(pos, (a, l + 1, r));
        } else {
            counts.set(pos, (a, l, r + 1));
        }
        proof {
            let nc = counts@;
            assert forall|i: int, j: int| 0 <= i < j < nc.len() implies (#[trigger] nc[i]).0 < (#[trigger] nc[j]).0 by {
                assert(old_c[i].0 < old_c[j].0);
            }
            assert forall|i: int| 0 <= i < nc.len() implies (#[trigger] nc[i]).1 == lc2(nc[i].0) && nc[i].2 == rc2(nc[i].0) by {
                if i != pos {
                    assert(nc[i] == old_c[i]);
                    assert(old_c[i].0 != apid);
                }
            }
            assert forall|b: Apid| #[trigger] has_apid(nc, b) <==> (lc2(b) > 0 || rc2(b) > 0) by {
                assert(has_apid(old_c, b) <==> (lc@(b) > 0 || rc@(b) > 0));
                if exists|i: int| 0 <= i < old_c.len() && (#[trigger] old_c[i]).0 == b {
                    let i = choose|i: int| 0 <= i < old_c.len() && (#[trigger] old_c[i]).0 == b;
                    assert(nc[i].0 == b);
                }
                if exists|i: int| 0 <= i < nc.len() && (#[trigger] nc[i]).0 == b {
                    let i = choose|i: int| 0 <= i < nc.len() && (#[trigger] nc[i]).0 == b;
                    assert(old_c[i].0 == b);
                }
            }
        }
    } else {
        proof {
            assert forall|i: int| 0 <= i < old_c.len() implies (#[trigger] old_c[i]).0 != apid by {}
            assert(!has_apid(old_c, apid));
            assert(lc@(apid) == 0 && rc@(apid) == 0);
        }
        if on_left {
            counts.insert(pos, (apid, 1, 0));
        } else {
            counts.insert(pos, (apid, 0, 1));
        }
        proof {
            let nc = counts@;
            assert forall|i: int, j: int| 0 <= i < j < nc.len() implies (#[trigger] nc[i]).0 < (#[trigger] nc[j]).0 by {
                if i > pos {
                    assert(nc[i] == old_c[i - 1]);
                } else if i < pos {
                    assert(nc[i] == old_c[i]);
                }
                if j > pos {
                    assert(nc[j] == old_c[j - 1]);
                } else if j < pos {
                    assert(nc[j] == old_c[j]);
                }
                if i == pos && j > pos && j - 1 > pos {
                    assert(old_c[pos as int].0 < old_c[j - 1].0);
                }
                if i < pos && j > pos {
                    assert(old_c[j - 1].0 >= apid);
                }
                if i > pos {
                    assert(old_c[i - 1].0 < old_c[j - 1].0);
                }
                if j < pos {
                    assert(old_c[i].0 < old_c[j].0);
                }
            }
            assert forall|i: int| 0 <= i < nc.len() implies (#[trigger] nc[i]).1 == lc2(nc[i].0) && nc[i].2 == rc2(nc[i].0) by {
                if i > pos {
                    assert(nc[i] == old_c[i - 1]);
                } else if i < pos {
                    assert(nc[i] == old_c[i]);
                }
            }
            assert forall|b: Apid| #[trigger] has_apid(nc, b) <==> (lc2(b) > 0 || rc2(b) > 0) by {
                assert(has_apid(old_c, b) <==> (lc@(b) > 0 || rc@(b) > 0));
                if exists|i: int| 0 <= i < old_c.len() && (#[trigger] old_c[i]).0 == b {
                    let i = choose|i: int| 0 <= i < old_c.len() && (#[trigger] old_c[i]).0 == b;
                    let ni = if i >= pos { i + 1 } else { i };
                    assert(nc[ni] == old_c[i]);
                }
                if b == apid {
                    assert(nc[pos as int].0 == b);
                }
                if exists|i: int| 0 <= i < nc.len() && (#[trigger] nc[i]).0 == b {
                    let i = choose|i: int| 0 <= i < nc.len() && (#[trigger] nc[i]).0 == b;
                    if i != pos {
                        let oi = if i > pos { i - 1 } else { i };
                        assert(nc[i] == old_c[oi]);
                    }
                }
            }
        }
    }
}

/// Count the packets of `packets` into `counts`, on the left or the right.
fn count_into(counts: &mut Vec<(Apid, usize, usize)>, packets: &[Packet], on_left: bool, other: Ghost<Seq<Packet>>)
    requires
        counts_sorted(old(counts)@),
        on_left ==> represents(old(counts)@, |a: Apid| 0nat, |a: Apid| count_apid(other@, a)),
        !on_left ==> represents(old(counts)@, |a: Apid| count_apid(other@, a), |a: Apid| 0nat),
    ensures
        counts_sorted(final(counts)@),
        on_left ==> represents(final(counts)@, |a: Apid| count_apid(packets@, a), |a: Apid| count_apid(other@, a)),
        !on_left ==> represents(final(counts)@, |a: Apid| count_apid(other@, a), |a: Apid| count_apid(packets@, a)),
{
    let ghost zero = |a: Apid| 0nat;
    let ghost oc = |a: Apid| count_apid(other@, a);
    let mut k: usize = 0;
    proof {
        assert(packets@.subrange(0, 0) =~= Seq::<Packet>::empty());
        assert((|a: Apid| count_apid(packets@.subrange(0, 0), a)) =~= zero);
    }
    while k < packets.len()
        invariant
            k <= packets@.len(),
            counts_sorted(counts@),
            zero == (|a: Apid| 0nat),
            oc == (|a: Apid| count_apid(other@, a)),
            on_left ==> represents(counts@, |a: Apid| count_apid(packets@.subrange(0, k as int), a), oc),
            !on_left ==> represents(counts@, oc, |a: Apid| count_apid(packets@.subrange(0, k as int), a)),
        decreases packets@.len() - k,
    {
        let ghost pre = packets@.subrange(0, k as int);
        let ghost post = packets@.subrange(0, k as int + 1);
        let ghost pc = |a: Apid| count_apid(pre, a);
        let apid = packets[k].header.apid;
        proof {
            assert(post.drop_last() =~= pre);
            assert(post.last() == packets@[k as int]);
            lemma_count_bound(packets@, k as int, apid);
            assert((|a: Apid| count_apid(post, a)) =~= bumped(pc, apid, true));
            assert(bumped(oc, apid, false) =~= oc);
        }
        if on_left {
            count_one(counts, apid, true, Ghost(pc), Ghost(oc));
        } else {
            count_one(counts, apid, false, Ghost(oc), Ghost(pc));
        }
        k = k + 1;
    }
    proof {
        assert(packets@.subrange(0, packets@.len() as int) =~= packets@);
    }
}

/// A count of packets is at most the number of packets.
proof fn lemma_count_bound(s: Seq<Packet>, k: int, a: Apid)
    requires
        0 <= k <= s.len(),
    ensures
        count_apid(s.subrange(0, k), a) <= k,
    decreases k,
{
    if k > 0 {
        assert(s.subrange(0, k).drop_last() =~= s.subrange(0, k - 1));
        lemma_count_bound(s, k - 1, a);
    }
}

/// The keys of a sequence of packets.
pub open spec fn keys_of(s: Seq<Packet>) -> Seq<Key> {
    s.map_values(|p: Packet| spec_key(p))
}

/// Whether every packet of `s` holds a primary header's worth of bytes.
pub open spec fn all_have_headers(s: Seq<Packet>) -> bool {
    forall|i: int| 0 <= i < s.len() ==> (#[trigger] s[i]).data@.len() >= 6
}

/// The keys of `packets`, in order.
fn keys(packets: &[Packet]) -> (v: Vec<Key>)
    requires
        all_have_headers(packets@),
    ensures
        v@ == keys_of(packets@),
{
    let mut v: Vec<Key> = Vec::new();
    let mut i: usize = 0;
    while i < packets.len()
        invariant
            i <= packets@.len(),
            all_have_headers(packets@),
            v@ == keys_of(packets@.subrange(0, i as int)),
        decreases packets@.len() - i,
    {
        v.push(packet_key(&packets[i]));
        proof {
            assert(keys_of(packets@.subrange(0, i as int + 1)) =~= keys_of(packets@.subrange(0, i as int)).push(
                spec_key(packets@[i as int]),
            ));
        }
        i = i + 1;
    }
    proof {
        assert(packets@.subrange(0, packets@.len() as int) =~= packets@);
    }
    v
}

/// Number of occurrences of `k` among the first `n` keys of `s`.
pub open spec fn prefix_count(s: Seq<Key>, n: int, k: Key) -> nat {
    s.subrange(0, n).to_multiset().count(k)
}

/// Counting one more key of `s` adds one for that key only.
proof fn lemma_prefix_count_step(s: Seq<Key>, n: int)
    requires
        0 <= n < s.len(),
    ensures
        forall|k: Key|
            #[trigger] prefix_count(s, n + 1, k) == prefix_count(s, n, k) + if s[n] == k {
                1nat
            } else {
                0nat
            },
{
    broadcast use vstd::multiset::group_multiset_axioms;

    assert(s.subrange(0, n + 1) =~= s.subrange(0, n).push(s[n]));
}

/// Counting the keys of `s` from `j` on adds no occurrence of a key that does not
/// occur there, and never takes one away.
proof fn lemma_prefix_count_rest(s: Seq<Key>, j: int, k: Key)
    requires
        0 <= j <= s.len(),
    ensures
        prefix_count(s, j, k) <= s.to_multiset().count(k),
        (forall|b: int| j <= b < s.len() ==> s[b] != k) ==> prefix_count(s, j, k) == s.to_multiset().count(k),
    decreases s.len() - j,
{
    if j == s.len() {
        assert(s.subrange(0, j) =~= s);
    } else {
        lemma_prefix_count_step(s, j);
        lemma_prefix_count_rest(s, j + 1, k);
    }
}

/// The keys of sorted `lk` that sorted `rk` does not match one for one, in order: a
/// key occurs in the result as many times as it occurs more often in `lk` than in
/// `rk`.
fn sorted_difference(lk: &Vec<Key>, rk: &Vec<Key>) -> (out: Vec<Key>)
    requires
        forall|i: int, j: int| 0 <= i < j < lk@.len() ==> !key_lt(#[trigger] lk@[j], #[trigger] lk@[i]),
        forall|i: int, j: int| 0 <= i < j < rk@.len() ==> !key_lt(#[trigger] rk@[j], #[trigger] rk@[i]),
    ensures
        forall|i: int, j: int| 0 <= i < j < out@.len() ==> !key_lt(#[trigger] out@[j], #[trigger] out@[i]),
        out@.to_multiset() == lk@.to_multiset().sub(rk@.to_multiset()),
{
    broadcast use vstd::multiset::group_multiset_axioms;

    let mut out: Vec<Key> = Vec::new();
    let mut j: usize = 0;
    let mut i: usize = 0;
    while i < lk.len()
        invariant
            i <= lk@.len(),
            j <= rk@.len(),
            forall|a: int, b: int| 0 <= a < b < lk@.len() ==> !key_lt(#[trigger] lk@[b], #[trigger] lk@[a]),
            forall|a: int, b: int| 0 <= a < b < rk@.len() ==> !key_lt(#[trigger] rk@[b], #[trigger] rk@[a]),
            forall|a: int, b: int| 0 <= a < b < out@.len() ==> !key_lt(#[trigger] out@[b], #[trigger] out@[a]),
            i < lk@.len() ==> forall|a: int| 0 <= a < out@.len() ==> !key_lt(lk@[i as int], #[trigger] out@[a]),
            forall|k: Key|
                #[trigger] out@.to_multiset().count(k) == if prefix_count(lk@, i as int, k) >= prefix_count(
                    rk@,
                    j as int,
                    k,
                ) {
                    prefix_count(lk@, i as int, k) - prefix_count(rk@, j as int, k)
                } else {
                    0
                },
            forall|k: Key, b: int|
                #![trigger prefix_count(lk@, i as int, k), rk@[b]]
                prefix_count(lk@, i as int, k) > prefix_count(rk@, j as int, k) && j <= b < rk@.len() ==> rk@[b] != k,
            i < lk@.len() ==> forall|k: Key|
                !key_lt(k, lk@[i as int]) ==> #[trigger] prefix_count(rk@, j as int, k) <= prefix_count(
                    lk@,
                    i as int,
                    k,
                ),
        decreases lk@.len() - i + rk@.len() - j,
    {
        let x = lk[i];
        let ghost out0 = out@;
        proof {
            lemma_prefix_count_step(lk@, i as int);
            if j < rk@.len() {
                lemma_prefix_count_step(rk@, j as int);
            }
        }
        if j < rk.len() && key_lt_exec(rk[j], x) {
            let ghost r = rk@[j as int];
            proof {
                assert forall|k: Key|
                    #[trigger] out@.to_multiset().count(k) == if prefix_count(lk@, i as int, k) >= prefix_count(
                        rk@,
                        j + 1,
                        k,
                    ) {
                        prefix_count(lk@, i as int, k) - prefix_count(rk@, j + 1, k)
                    } else {
                        0
                    } by {
                    if k == r && prefix_count(lk@, i as int, k) > prefix_count(rk@, j as int, k) {
                        assert(rk@[j as int] != k);
                    }
                }
            }
            j = j + 1;
        } else if j < rk.len() && key_eq_exec(rk[j], x) {
            proof {
                assert forall|k: Key|
                    #[trigger] out@.to_multiset().count(k) == if prefix_count(lk@, i + 1, k) >= prefix_count(
                        rk@,
                        j + 1,
                        k,
                    ) {
                        prefix_count(lk@, i + 1, k) - prefix_count(rk@, j + 1, k)
                    } else {
                        0
                    } by {}
                assert forall|k: Key, b: int|
                    #![trigger prefix_count(lk@, i + 1, k), rk@[b]]
                    prefix_count(lk@, i + 1, k) > prefix_count(rk@, j + 1, k) && j + 1 <= b < rk@.len() implies rk@[b]
                        != k by {
                    if k == x {
                        assert(rk@[j as int] == x);
                    }
                }
                if i + 1 < lk@.len() {
                    assert(!key_lt(lk@[i + 1], x));
                    assert forall|k: Key| !key_lt(k, lk@[i + 1]) implies #[trigger] prefix_count(
                        rk@,
                        j + 1,
                        k,
                    ) <= prefix_count(lk@, i + 1, k) by {
                        assert(!key_lt(k, lk@[i as int]));
                    }
                    assert forall|a: int| 0 <= a < out@.len() implies !key_lt(lk@[i + 1], #[trigger] out@[a]) by {
                        assert(!key_lt(x, out@[a]));
                    }
                }
            }
            i = i + 1;
            j = j + 1;
        } else {
            out.push(x);
            proof {
                assert(out@ == out0.push(x));
                assert(prefix_count(rk@, j as int, x) <= prefix_count(lk@, i as int, x));
                assert forall|k: Key|
                    #[trigger] out@.to_multiset().count(k) == if prefix_count(lk@, i + 1, k) >= prefix_count(
                        rk@,
                        j as int,
                        k,
                    ) {
                        prefix_count(lk@, i + 1, k) - prefix_count(rk@, j as int, k)
                    } else {
                        0
                    } by {
                    assert(out0.to_multiset().count(k) == if prefix_count(lk@, i as int, k) >= prefix_count(
                        rk@,
                        j as int,
                        k,
                    ) {
                        prefix_count(lk@, i as int, k) - prefix_count(rk@, j as int, k)
                    } else {
                        0
                    });
                }
                assert forall|k: Key, b: int|
                    #![trigger prefix_count(lk@, i + 1, k), rk@[b]]
                    prefix_count(lk@, i + 1, k) > prefix_count(rk@, j as int, k) && j <= b < rk@.len() implies rk@[b]
                        != k by {
                    if k == x {
                        assert(key_lt(x, rk@[j as int]));
                        if b > j {
                            assert(!key_lt(rk@[b], rk@[j as int]));
                        }
                    }
                }
                assert forall|a: int, b: int| 0 <= a < b < out@.len() implies !key_lt(#[trigger] out@[b], #[trigger] out@[a]) by {
                    if b == out0.len() {
                        assert(!key_lt(x, out0[a]));
                    } else {
                        assert(out@[b] == out0[b]);
                    }
                }
                if i + 1 < lk@.len() {
                    assert(!key_lt(lk@[i + 1], x));
                    assert forall|k: Key| !key_lt(k, lk@[i + 1]) implies #[trigger] prefix_count(
                        rk@,
                        j as int,
                        k,
                    ) <= prefix_count(lk@, i + 1, k) by {
                        assert(!key_lt(k, lk@[i as int]));
                    }
                    assert forall|a: int| 0 <= a < out@.len() implies !key_lt(lk@[i + 1], #[trigger] out@[a]) by {
                        if a < out0.len() {
                            assert(!key_lt(x, out0[a]));
                        }
                    }
                }
            }
            i = i + 1;
        }
    }
    proof {
        assert forall|k: Key| #[trigger] out@.to_multiset().count(k) == lk@.to_multiset().sub(rk@.to_multiset()).count(k) by {
            lemma_prefix_count_rest(lk@, lk@.len() as int, k);
            lemma_prefix_count_rest(rk@, j as int, k);
        }
        assert(out@.to_multiset() =~= lk@.to_multiset().sub(rk@.to_multiset()));
    }
    out
}

/// Whether two keys are the same.
fn key_eq_exec(a: Key, b: Key) -> (r: bool)
    ensures
        r == (a == b),
{
    a.0 == b.0 && a.1 == b.1 && a.2 == b.2
}

/// Whether key `a` is before key `b`.
fn key_lt_exec(a: Key, b: Key) -> (r: bool)
    ensures
        r == key_lt(a, b),
{
    a.0 < b.0 || (a.0 == b.0 && a.1 < b.1) || (a.0 == b.0 && a.1 == b.1 && a.2 < b.2)
}

/// Compare the packets of two files: per apid, the number of packets on either side,
/// the packets on the left that are not on the right, and those on the right that
/// are not on the left, as keys of apid, sequence id and checksum of the user data.
///
/// # Errors
/// [DiffError::NoPackets] if neither side holds a packet.
pub fn diff_packets(left: &[Packet], right: &[Packet]) -> (r: Result<DiffReport, DiffError>)
    requires
        all_have_headers(left@),
        all_have_headers(right@),
    ensures
        (left@.len() == 0 && right@.len() == 0) <==> r == Err::<DiffReport, DiffError>(DiffError::NoPackets),
        r matches Ok(d) ==> {
            &&& counts_sorted(d.counts@)
            &&& counts_exact(d.counts@, left@, right@)
            &&& forall|i: int, j: int| 0 <= i < j < d.left_only@.len() ==> !key_lt(#[trigger] d.left_only@[j], #[trigger] d.left_only@[i])
            &&& d.left_only@.to_multiset() == keys_of(left@).to_multiset().sub(keys_of(right@).to_multiset())
            &&& forall|i: int, j: int| 0 <= i < j < d.right_only@.len() ==> !key_lt(#[trigger] d.right_only@[j], #[trigger] d.right_only@[i])
            &&& d.right_only@.to_multiset() == keys_of(right@).to_multiset().sub(keys_of(left@).to_multiset())
        },
{
    if left.len() == 0 && right.len() == 0 {
        return Err(DiffError::NoPackets);
    }
    let mut counts: Vec<(Apid, usize, usize)> = Vec::new();
    proof {
        assert(represents(counts@, |a: Apid| 0nat, |a: Apid| count_apid(Seq::<Packet>::empty(), a)));
    }
    count_into(&mut counts, left, true, Ghost(Seq::empty()));
    proof {
        assert((|a: Apid| count_apid(Seq::<Packet>::empty(), a)) =~= (|a: Apid| 0nat));
    }
    count_into(&mut counts, right, false, Ghost(left@));
    let mut lk = keys(left);
    let mut rk = keys(right);
    let ghost lk0 = lk@;
    let ghost rk0 = rk@;
    sort_keys(&mut lk);
    sort_keys(&mut rk);
    let left_only = sorted_difference(&lk, &rk);
    let right_only = sorted_difference(&rk, &lk);
    Ok(DiffReport { counts, left_only, right_only })
}

} // verus!
