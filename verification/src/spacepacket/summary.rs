use vstd::prelude::*;
use std::collections::HashMap;
use crate::spacepacket::packet::{
    missing_packets, missing_packets_defined, spec_missing_packets, Apid, Packet, PrimaryHeader,
};

verus! {

broadcast use vstd::std_specs::hash::group_hash_axioms;

/// Packet statistics of one apid.
#[derive(Debug, Default, Clone, Copy)]
pub struct ApidSummary {
    pub count: usize,
    pub bytes: usize,
    pub missing: usize,
}

/// Tracks stats on packet iteration.
#[derive(Debug, Clone)]
pub struct Summary {
    pub count: usize,
    pub bytes: usize,
    pub missing: usize,
    pub apids: HashMap<Apid, ApidSummary>,
    /// Header of the last packet counted for each apid.
    pub seen_headers: HashMap<Apid, PrimaryHeader>,
}

/// The statistics of an apid that no packet was counted for yet.
pub open spec fn empty_apid_summary() -> ApidSummary {
    ApidSummary { count: 0, bytes: 0, missing: 0 }
}

/// Sequence ids missing before a packet of header `hdr`, given the header last seen
/// for its apid.
pub open spec fn missing_before(seen: Map<Apid, PrimaryHeader>, hdr: PrimaryHeader) -> int {
    if seen.contains_key(hdr.apid) {
        spec_missing_packets(hdr.sequence_id, seen[hdr.apid].sequence_id)
    } else {
        0
    }
}

/// The `k`th count of `a`: packets, bytes, missing packets.
pub open spec fn summary_count(a: ApidSummary, k: int) -> int {
    if k == 0 {
        a.count as int
    } else if k == 1 {
        a.bytes as int
    } else {
        a.missing as int
    }
}

/// The statistics `apids` holds for `apid`.
pub open spec fn stats_of(apids: Map<Apid, ApidSummary>, apid: Apid) -> ApidSummary {
    if apids.contains_key(apid) {
        apids[apid]
    } else {
        empty_apid_summary()
    }
}

/// The sum of the `k`th count over the apids below `upto`.
pub open spec fn apids_sum(apids: Map<Apid, ApidSummary>, k: int, upto: nat) -> int
    decreases upto,
{
    if upto == 0 {
        0
    } else {
        apids_sum(apids, k, (upto - 1) as nat) + summary_count(stats_of(apids, (upto - 1) as Apid), k)
    }
}

proof fn lemma_apids_sum_insert(m: Map<Apid, ApidSummary>, a: Apid, x: ApidSummary, k: int, upto: nat)
    requires
        upto <= Apid::MAX as nat + 1,
    ensures
        apids_sum(m.insert(a, x), k, upto) == apids_sum(m, k, upto) + if (a as int) < upto {
            summary_count(x, k) - summary_count(stats_of(m, a), k)
        } else {
            0
        },
    decreases upto,
{
    if upto > 0 {
        lemma_apids_sum_insert(m, a, x, k, (upto - 1) as nat);
        let b = (upto - 1) as Apid;
        assert(b as int == upto - 1);
        if b == a {
            assert(stats_of(m.insert(a, x), b) == x);
        } else {
            assert(stats_of(m.insert(a, x), b) == stats_of(m, b));
        }
    }
}

proof fn lemma_apids_sum_empty(k: int, upto: nat)
    ensures
        apids_sum(Map::empty(), k, upto) == 0,
    decreases upto,
{
    if upto > 0 {
        lemma_apids_sum_empty(k, (upto - 1) as nat);
    }
}

impl Summary {
    /// The header of the last packet counted for each apid.
    pub open spec fn last_headers(&self) -> Map<Apid, PrimaryHeader> {
        self.seen_headers@
    }

    /// The statistics that `apids` holds for `apid`.
    pub open spec fn apid_stats(&self, apid: Apid) -> ApidSummary {
        if self.apids@.contains_key(apid) {
            self.apids@[apid]
        } else {
            empty_apid_summary()
        }
    }

    /// Whether the packet, byte and missing packet counts are the sums of those of
    /// every apid.
    pub open spec fn adds_up(&self) -> bool {
        &&& self.count == apids_sum(self.apids@, 0, Apid::MAX as nat + 1)
        &&& self.bytes == apids_sum(self.apids@, 1, Apid::MAX as nat + 1)
        &&& self.missing == apids_sum(self.apids@, 2, Apid::MAX as nat + 1)
    }

    /// Whether [Summary::add] can count `packet` without overflowing a counter.
    pub open spec fn can_add(&self, packet: &Packet) -> bool {
        let hdr = packet.header;
        let a = self.apid_stats(hdr.apid);
        let m = missing_before(self.last_headers(), hdr);
        &&& self.last_headers().contains_key(hdr.apid) ==> missing_packets_defined(
            hdr.sequence_id,
            self.last_headers()[hdr.apid].sequence_id,
        )
        &&& self.count + 1 <= usize::MAX
        &&& self.bytes + packet.data@.len() <= usize::MAX
        &&& self.missing + m <= usize::MAX
        &&& a.count + 1 <= usize::MAX
        &&& a.bytes + packet.data@.len() <= usize::MAX
        &&& a.missing + m <= usize::MAX
    }

    /// Count a packet: its bytes, and the sequence ids missing between it and the
    /// packet last counted for its apid.
    pub fn add(&mut self, packet: &Packet)
        requires
            old(self).can_add(packet),
        ensures
            ({
                let hdr = packet.header;
                let len = packet.data@.len();
                let m = missing_before(old(self).last_headers(), hdr);
                let a = old(self).apid_stats(hdr.apid);
                &&& final(self).count == old(self).count + 1
                &&& final(self).bytes == old(self).bytes + len
                &&& final(self).missing == old(self).missing + m
                &&& final(self).apids@ == old(self).apids@.insert(
                    hdr.apid,
                    ApidSummary {
                        count: (a.count + 1) as usize,
                        bytes: (a.bytes + len) as usize,
                        missing: (a.missing + m) as usize,
                    },
                )
                &&& final(self).last_headers() == old(self).last_headers().insert(hdr.apid, hdr)
            }),
            old(self).adds_up() ==> final(self).adds_up(),
    {
        let ghost old_apids = self.apids@;
        self.count = self.count + 1;
        self.bytes = self.bytes + packet.data.len();

        let hdr = packet.header;
        let mut apid = match self.apids.get(&hdr.apid) {
            Some(a) => *a,
            None => ApidSummary { count: 0, bytes: 0, missing: 0 },
        };
        apid.count = apid.count + 1;
        apid.bytes = apid.bytes + packet.data.len();

        match self.seen_headers.get(&hdr.apid) {
            Some(last_hdr) => {
                let missing = missing_packets(hdr.sequence_id, last_hdr.sequence_id) as usize;
                apid.missing = apid.missing + missing;
                self.missing = self.missing + missing;
            },
            None => {},
        }
        self.apids.insert(hdr.apid, apid);
        self.seen_headers.insert(hdr.apid, hdr);
        proof {
            lemma_apids_sum_insert(old_apids, hdr.apid, apid, 0, Apid::MAX as nat + 1);
            lemma_apids_sum_insert(old_apids, hdr.apid, apid, 1, Apid::MAX as nat + 1);
            lemma_apids_sum_insert(old_apids, hdr.apid, apid, 2, Apid::MAX as nat + 1);
        }
    }
}

impl Default for Summary {
    fn default() -> (s: Self)
        ensures
            s.count == 0,
            s.bytes == 0,
            s.missing == 0,
            s.apids@ == Map::<Apid, ApidSummary>::empty(),
            s.last_headers() == Map::<Apid, PrimaryHeader>::empty(),
            s.adds_up(),
    {
        proof {
            lemma_apids_sum_empty(0, Apid::MAX as nat + 1);
            lemma_apids_sum_empty(1, Apid::MAX as nat + 1);
            lemma_apids_sum_empty(2, Apid::MAX as nat + 1);
        }
        Summary {
            count: 0,
            bytes: 0,
            missing: 0,
            apids: HashMap::new(),
            seen_headers: HashMap::new(),
        }
    }
}

} // verus!
