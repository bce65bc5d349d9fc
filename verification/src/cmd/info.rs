//! The statistics of the packet info tool.
use vstd::prelude::*;
use std::collections::HashMap;
use crate::spacepacket::packet::{
    lemma_missing_packets_wraps, missing_packets, missing_packets_defined, spec_missing_packets, Apid, Packet,
    PrimaryHeader,
};

verus! {

broadcast use vstd::std_specs::hash::group_hash_axioms;

/// Packet statistics: counts, and the first and last packet times, in nanoseconds.
#[derive(Default, Debug, Clone, Copy, PartialEq, Eq, Structural)]
pub struct Stats {
    pub total_packets: usize,
    pub missing_packets: usize,
    pub first_packet_time: Option<i128>,
    pub last_packet_time: Option<i128>,
}

/// The earlier of a time and an optional time.
pub open spec fn earliest(cur: Option<i128>, t: i128) -> Option<i128> {
    match cur {
        None => Some(t),
        Some(c) => Some(if t < c { t } else { c }),
    }
}

/// The later of a time and an optional time.
pub open spec fn latest(cur: Option<i128>, t: i128) -> Option<i128> {
    match cur {
        None => Some(t),
        Some(c) => Some(if t > c { t } else { c }),
    }
}

/// `s` with one more packet, `missing` sequence ids missing before it, and its time
/// if it has one.
pub open spec fn stats_added(s: Stats, missing: int, time: Option<i128>) -> Stats {
    Stats {
        total_packets: (s.total_packets + 1) as usize,
        missing_packets: (s.missing_packets + missing) as usize,
        first_packet_time: match time {
            Some(t) => earliest(s.first_packet_time, t),
            None => s.first_packet_time,
        },
        last_packet_time: match time {
            Some(t) => latest(s.last_packet_time, t),
            None => s.last_packet_time,
        },
    }
}

fn add_stats(s: &mut Stats, missing: u16, time: Option<i128>)
    requires
        old(s).total_packets + 1 <= usize::MAX,
        old(s).missing_packets + missing <= usize::MAX,
    ensures
        *final(s) == stats_added(*old(s), missing as int, time),
{
    s.total_packets = s.total_packets + 1;
    s.missing_packets = s.missing_packets + missing as usize;
    match time {
        Some(t) => {
            s.first_packet_time = match s.first_packet_time {
                None => Some(t),
                Some(c) => Some(if t < c { t } else { c }),
            };
            s.last_packet_time = match s.last_packet_time {
                None => Some(t),
                Some(c) => Some(if t > c { t } else { c }),
            };
        },
        None => {},
    }
}

/// The statistics of a packet file: over all packets, and per apid.
#[derive(Debug, Clone)]
pub struct PacketInfo {
    pub summary: Stats,
    pub apids: HashMap<Apid, Stats>,
    /// Sequence id of the last packet of each apid.
    pub last_seqid: HashMap<Apid, u16>,
}

/// Statistics of an apid no packet was counted for.
pub open spec fn no_stats() -> Stats {
    Stats { total_packets: 0, missing_packets: 0, first_packet_time: None, last_packet_time: None }
}

impl PacketInfo {
    pub fn new() -> (i: Self)
        ensures
            i.summary == no_stats(),
            i.apids@ == Map::<Apid, Stats>::empty(),
            i.last_seqid@ == Map::<Apid, u16>::empty(),
    {
        PacketInfo {
            summary: Stats {
                total_packets: 0,
                missing_packets: 0,
                first_packet_time: None,
                last_packet_time: None,
            },
            apids: HashMap::new(),
            last_seqid: HashMap::new(),
        }
    }

    /// Sequence ids missing before `packet`: none for the first packet of its apid.
    pub open spec fn missing_before(&self, packet: Packet) -> int {
        if self.last_seqid@.contains_key(packet.header.apid) {
            spec_missing_packets(packet.header.sequence_id, self.last_seqid@[packet.header.apid])
        } else {
            0
        }
    }

    /// The statistics of `apid` so far.
    pub open spec fn apid_stats(&self, apid: Apid) -> Stats {
        if self.apids@.contains_key(apid) {
            self.apids@[apid]
        } else {
            no_stats()
        }
    }

    /// Count `packet`, with its time if it has a secondary header and its time could be
    /// decoded.
    pub fn add(&mut self, packet: &Packet, time: Option<i128>)
        requires
            old(self).last_seqid@.contains_key(packet.header.apid) ==> missing_packets_defined(
                packet.header.sequence_id,
                old(self).last_seqid@[packet.header.apid],
            ),
            old(self).summary.total_packets + 1 <= usize::MAX,
            old(self).summary.missing_packets + old(self).missing_before(*packet) <= usize::MAX,
            old(self).apid_stats(packet.header.apid).total_packets + 1 <= usize::MAX,
            old(self).apid_stats(packet.header.apid).missing_packets + old(self).missing_before(*packet)
                <= usize::MAX,
        ensures
            ({
                let m = old(self).missing_before(*packet);
                let t = if packet.header.has_secondary_header {
                    time
                } else {
                    None
                };
                &&& final(self).summary == stats_added(old(self).summary, m, t)
                &&& final(self).apids@ == old(self).apids@.insert(
                    packet.header.apid,
                    stats_added(old(self).apid_stats(packet.header.apid), m, t),
                )
                &&& final(self).last_seqid@ == old(self).last_seqid@.insert(
                    packet.header.apid,
                    packet.header.sequence_id,
                )
            }),
    {
        let apid = packet.header.apid;
        let cur = packet.header.sequence_id;
        let missing: u16 = match self.last_seqid.get(&apid) {
            Some(last) => missing_packets(cur, *last),
            None => 0,
        };
        self.last_seqid.insert(apid, cur);
        let time = if packet.header.has_secondary_header {
            time
        } else {
            None
        };
        add_stats(&mut self.summary, missing, time);
        let mut stats = match self.apids.get(&apid) {
            Some(s) => *s,
            None => Stats {
                total_packets: 0,
                missing_packets: 0,
                first_packet_time: None,
                last_packet_time: None,
            },
        };
        add_stats(&mut stats, missing, time);
        self.apids.insert(apid, stats);
    }
}

/// The time between the first and last packet, where both are known.
pub fn duration(s: &Stats) -> (d: Option<i128>)
    requires
        s.first_packet_time matches Some(f) && s.last_packet_time matches Some(l) ==> i128::MIN <= l
            - f <= i128::MAX,
    ensures
        d == match (s.first_packet_time, s.last_packet_time) {
            (Some(f), Some(l)) => Some((l - f) as i128),
            _ => None,
        },
{
    match (s.first_packet_time, s.last_packet_time) {
        (Some(f), Some(l)) => Some(l - f),
        _ => None,
    }
}


/// Sequence ids missing before `p`, given the last sequence id of each apid.
pub open spec fn missing_in(last: Map<Apid, u16>, p: Packet) -> int {
    if last.contains_key(p.header.apid) {
        spec_missing_packets(p.header.sequence_id, last[p.header.apid])
    } else {
        0
    }
}

/// The statistics of `apid` in `apids`, none where it has none.
pub open spec fn stats_in(apids: Map<Apid, Stats>, apid: Apid) -> Stats {
    if apids.contains_key(apid) {
        apids[apid]
    } else {
        no_stats()
    }
}

/// The time counted for `p`: its decoded time where it has a secondary header.
pub open spec fn time_of(p: Packet, t: Option<i128>) -> Option<i128> {
    if p.header.has_secondary_header {
        t
    } else {
        None
    }
}

/// The statistics, the statistics per apid and the last sequence id per apid after
/// counting the first `n` packets, each with its time.
pub open spec fn info_run(packets: Seq<Packet>, times: Seq<Option<i128>>, n: nat) -> (Stats, Map<Apid, Stats>, Map<
    Apid,
    u16,
>)
    decreases n,
{
    if n == 0 {
        (no_stats(), Map::empty(), Map::empty())
    } else {
        let (s, a, l) = info_run(packets, times, (n - 1) as nat);
        let p = packets[n - 1];
        let t = time_of(p, times[n - 1]);
        let m = missing_in(l, p);
        (
            stats_added(s, m, t),
            a.insert(p.header.apid, stats_added(stats_in(a, p.header.apid), m, t)),
            l.insert(p.header.apid, p.header.sequence_id),
        )
    }
}

/// Whether every sequence id is one a primary header can hold.
pub open spec fn seqids_in_range(packets: Seq<Packet>) -> bool {
    forall|i: int| 0 <= i < packets.len() ==> (#[trigger] packets[i]).header.sequence_id <= PrimaryHeader::SEQ_MAX
}

proof fn lemma_info_run_bounds(packets: Seq<Packet>, times: Seq<Option<i128>>, n: nat)
    requires
        n <= packets.len(),
        seqids_in_range(packets),
    ensures
        ({
            let (s, a, l) = info_run(packets, times, n);
            &&& s.total_packets <= n
            &&& s.missing_packets <= 16383 * n
            &&& forall|k: Apid|
                a.contains_key(k) ==> (#[trigger] a[k]).total_packets <= n && a[k].missing_packets <= 16383 * n
            &&& forall|k: Apid| l.contains_key(k) ==> #[trigger] l[k] <= PrimaryHeader::SEQ_MAX
        }),
    decreases n,
{
    if n > 0 {
        lemma_info_run_bounds(packets, times, (n - 1) as nat);
        let (s, a, l) = info_run(packets, times, (n - 1) as nat);
        let p = packets[n - 1];
        if l.contains_key(p.header.apid) {
            lemma_missing_packets_wraps(p.header.sequence_id, l[p.header.apid]);
        }
        assert(p.header.sequence_id <= PrimaryHeader::SEQ_MAX);
    }
}

/// The statistics of a packet file: each packet counted in order, with the time
/// decoded for it (see [PacketInfo::add]).
pub fn summarize(packets: &[Packet], times: &[Option<i128>]) -> (info: PacketInfo)
    requires
        times@.len() == packets@.len(),
        seqids_in_range(packets@),
        16384 * packets@.len() <= usize::MAX,
    ensures
        (info.summary, info.apids@, info.last_seqid@) == info_run(packets@, times@, packets@.len()),
        counts_add_up(info.summary, info.apids@),
{
    let mut info = PacketInfo::new();
    let mut i: usize = 0;
    while i < packets.len()
        invariant
            i <= packets@.len(),
            times@.len() == packets@.len(),
            seqids_in_range(packets@),
            16384 * packets@.len() <= usize::MAX,
            (info.summary, info.apids@, info.last_seqid@) == info_run(packets@, times@, i as nat),
        decreases packets@.len() - i,
    {
        proof {
            lemma_info_run_bounds(packets@, times@, i as nat);
            let p = packets@[i as int];
            let (s, a, l) = info_run(packets@, times@, i as nat);
            assert(l == info.last_seqid@);
            if info.last_seqid@.contains_key(p.header.apid) {
                assert(l[p.header.apid] <= PrimaryHeader::SEQ_MAX);
                lemma_missing_packets_wraps(p.header.sequence_id, info.last_seqid@[p.header.apid]);
            }
            assert(p.header.sequence_id <= PrimaryHeader::SEQ_MAX);
        }
        info.add(&packets[i], times[i]);
        i = i + 1;
    }
    proof {
        lemma_info_counts_add_up(packets@, times@, packets@.len());
    }
    info
}


/// The count of packets (`k == 0`) or of missing packets (otherwise) of `s`.
pub open spec fn count_of(s: Stats, k: int) -> int {
    if k == 0 {
        s.total_packets as int
    } else {
        s.missing_packets as int
    }
}

/// The sum of a count over the apids below `upto`.
pub open spec fn apid_sum(apids: Map<Apid, Stats>, k: int, upto: nat) -> int
    decreases upto,
{
    if upto == 0 {
        0
    } else {
        apid_sum(apids, k, (upto - 1) as nat) + count_of(stats_in(apids, (upto - 1) as Apid), k)
    }
}

/// Whether the packet and missing packet counts of `summary` are the sums of those
/// of every apid.
pub open spec fn counts_add_up(summary: Stats, apids: Map<Apid, Stats>) -> bool {
    &&& summary.total_packets == apid_sum(apids, 0, Apid::MAX as nat + 1)
    &&& summary.missing_packets == apid_sum(apids, 1, Apid::MAX as nat + 1)
}

proof fn lemma_apid_sum_insert(m: Map<Apid, Stats>, a: Apid, x: Stats, k: int, upto: nat)
    requires
        upto <= Apid::MAX as nat + 1,
    ensures
        apid_sum(m.insert(a, x), k, upto) == apid_sum(m, k, upto) + if (a as int) < upto {
            count_of(x, k) - count_of(stats_in(m, a), k)
        } else {
            0
        },
    decreases upto,
{
    if upto > 0 {
        lemma_apid_sum_insert(m, a, x, k, (upto - 1) as nat);
        let b = (upto - 1) as Apid;
        assert(b as int == upto - 1);
        if b == a {
            assert(stats_in(m.insert(a, x), b) == x);
        } else {
            assert(stats_in(m.insert(a, x), b) == stats_in(m, b));
        }
    }
}

proof fn lemma_apid_sum_empty(k: int, upto: nat)
    ensures
        apid_sum(Map::empty(), k, upto) == 0,
    decreases upto,
{
    if upto > 0 {
        lemma_apid_sum_empty(k, (upto - 1) as nat);
    }
}

/// The packet info counts add up: the packets counted, and the packets missing,
/// over all apids, are the sums of those of each apid.
pub proof fn lemma_info_counts_add_up(packets: Seq<Packet>, times: Seq<Option<i128>>, n: nat)
    requires
        n <= packets.len(),
        seqids_in_range(packets),
        16384 * packets.len() <= usize::MAX,
    ensures
        counts_add_up(info_run(packets, times, n).0, info_run(packets, times, n).1),
    decreases n,
{
    if n == 0 {
        lemma_apid_sum_empty(0, Apid::MAX as nat + 1);
        lemma_apid_sum_empty(1, Apid::MAX as nat + 1);
    } else {
        lemma_info_counts_add_up(packets, times, (n - 1) as nat);
        lemma_info_run_bounds(packets, times, (n - 1) as nat);
        let (s, a, l) = info_run(packets, times, (n - 1) as nat);
        let p = packets[n - 1];
        if l.contains_key(p.header.apid) {
            assert(l[p.header.apid] <= PrimaryHeader::SEQ_MAX);
            lemma_missing_packets_wraps(p.header.sequence_id, l[p.header.apid]);
        }
        assert(p.header.sequence_id <= PrimaryHeader::SEQ_MAX);
        let t = time_of(p, times[n - 1]);
        let m = missing_in(l, p);
        let x = stats_added(stats_in(a, p.header.apid), m, t);
        lemma_apid_sum_insert(a, p.header.apid, x, 0, Apid::MAX as nat + 1);
        lemma_apid_sum_insert(a, p.header.apid, x, 1, Apid::MAX as nat + 1);
    }
}

} // verus!
