use vstd::prelude::*;
use std::collections::VecDeque;
use vstd::slice::{slice_subrange, slice_to_vec};
use crate::spacepacket::error::Error;
use crate::queue::to_deque;

verus! {

pub type Apid = u16;

/// CCSDS Primary Header
///
/// The primary header format is common to all CCSDS space packets.
#[derive(Debug, Copy, Clone, PartialEq, Eq, Structural)]
pub struct PrimaryHeader {
    pub version: u8,
    pub type_flag: u8,
    pub has_secondary_header: bool,
    pub apid: Apid,
    /// Defines a packets grouping. See the `SEQ_*` values.
    pub sequence_flags: u8,
    pub sequence_id: u16,
    pub len_minus1: u16,
}

/// A big-endian 16 bit word.
pub open spec fn word(b0: u8, b1: u8) -> u16 {
    (b0 as u16 * 256 + b1 as u16) as u16
}

/// The header that the first six bytes of `buf` encode.
pub open spec fn spec_primary_header(buf: Seq<u8>) -> PrimaryHeader
    recommends
        buf.len() >= 6,
{
    let d1 = word(buf[0], buf[1]);
    let d2 = word(buf[2], buf[3]);
    PrimaryHeader {
        version: ((d1 >> 13u16) & 0x7u16) as u8,
        type_flag: ((d1 >> 12u16) & 0x1u16) as u8,
        has_secondary_header: (d1 >> 11u16) & 0x1u16 == 1u16,
        apid: d1 & 0x7ffu16,
        sequence_flags: ((d2 >> 14u16) & 0x3u16) as u8,
        sequence_id: d2 & 0x3fffu16,
        len_minus1: word(buf[4], buf[5]),
    }
}

/// Total length of the packet a header describes.
pub open spec fn packet_len(h: PrimaryHeader) -> int {
    6 + h.len_minus1 + 1
}

fn be_word(b0: u8, b1: u8) -> (w: u16)
    ensures
        w == word(b0, b1),
{
    let w: u16 = ((b0 as u16) << 8u16) | (b1 as u16);
    assert(w == word(b0, b1)) by (bit_vector)
        requires
            w == ((b0 as u16) << 8u16) | (b1 as u16),
    ;
    w
}

impl PrimaryHeader {
    /// Size of a ``PrimaryHeader``
    pub const LEN: usize = 6;
    /// Maximum supported sequence id value
    pub const SEQ_MAX: u16 = 16383;
    /// Packet is the first packet in a packet group
    pub const SEQ_FIRST: u8 = 1;
    /// Packet is a part of a packet group, but not first and not last
    pub const SEQ_CONTINUATION: u8 = 0;
    /// Packet is the last packet in a packet group
    pub const SEQ_LAST: u8 = 2;
    /// Packet is not part of a packet group, i.e., standalone.
    pub const SEQ_UNSEGMENTED: u8 = 3;

    /// Decode from bytes.
    ///
    /// # Errors
    /// [Error::NotEnoughData] if there are not enough bytes to construct the header.
    pub fn decode(buf: &[u8]) -> (res: Result<Self, Error>)
        ensures
            buf@.len() < 6 <==> res is Err,
            res matches Err(e) ==> e == (Error::NotEnoughData { actual: buf@.len() as usize, minimum: 6 }),
            res matches Ok(h) ==> h == spec_primary_header(buf@),
    {
        if buf.len() < Self::LEN {
            return Err(Error::NotEnoughData { actual: buf.len(), minimum: Self::LEN });
        }
        let d1 = be_word(buf[0], buf[1]);
        let d2 = be_word(buf[2], buf[3]);
        let d3 = be_word(buf[4], buf[5]);

        Ok(PrimaryHeader {
            version: ((d1 >> 13u16) & 0x7u16) as u8,
            type_flag: ((d1 >> 12u16) & 0x1u16) as u8,
            has_secondary_header: (d1 >> 11u16) & 0x1u16 == 1u16,
            apid: d1 & 0x7ffu16,
            sequence_flags: ((d2 >> 14u16) & 0x3u16) as u8,
            sequence_id: d2 & 0x3fffu16,
            len_minus1: d3,
        })
    }
}

/// Packet represents a single CCSDS space packet and its associated data.
///
/// This packet contains the primary header data as well as the user data,
/// which may or may not container a secondary header. See the header's
/// `has_secondary_header` flag.
#[derive(Debug, Clone)]
pub struct Packet {
    /// All packets have a primary header
    pub header: PrimaryHeader,
    /// All packet bytes, including header and user data
    pub data: Vec<u8>,
    /// Offset of this packet in the stream it was read from.
    pub offset: usize,
}

impl Packet {
    /// Maximum length of a packet read from a stream.
    pub const MAX_LEN: usize = 65535;

    pub fn is_first(&self) -> (r: bool)
        ensures
            r <==> self.header.sequence_flags == PrimaryHeader::SEQ_FIRST,
    {
        self.header.sequence_flags == PrimaryHeader::SEQ_FIRST
    }

    pub fn is_last(&self) -> (r: bool)
        ensures
            r <==> self.header.sequence_flags == PrimaryHeader::SEQ_LAST,
    {
        self.header.sequence_flags == PrimaryHeader::SEQ_LAST
    }

    pub fn is_cont(&self) -> (r: bool)
        ensures
            r <==> self.header.sequence_flags == PrimaryHeader::SEQ_CONTINUATION,
    {
        self.header.sequence_flags == PrimaryHeader::SEQ_CONTINUATION
    }

    pub fn is_standalone(&self) -> (r: bool)
        ensures
            r <==> self.header.sequence_flags == PrimaryHeader::SEQ_UNSEGMENTED,
    {
        self.header.sequence_flags == PrimaryHeader::SEQ_UNSEGMENTED
    }

    /// Decode a single [Packet] from the start of `buf`.
    ///
    /// # Errors:
    /// [Error::NotEnoughData] if `buf` does not contain enough data for packet header and the
    /// length described by that header.
    pub fn decode(buf: &[u8]) -> (res: Result<Packet, Error>)
        ensures
            buf@.len() < 6 ==> (res matches Err(e) && e == (Error::NotEnoughData {
                actual: buf@.len() as usize,
                minimum: 6,
            })),
            buf@.len() >= 6 ==> {
                let h = spec_primary_header(buf@);
                &&& buf@.len() < packet_len(h) ==> (res matches Err(e) && e == (
                Error::NotEnoughData { actual: buf@.len() as usize, minimum: packet_len(h) as usize }))
                &&& buf@.len() >= packet_len(h) ==> (res matches Ok(p) && p.header == h && p.data@
                    == buf@.subrange(0, packet_len(h)) && p.offset == 0)
            },
    {
        if buf.len() < PrimaryHeader::LEN {
            return Err(Error::NotEnoughData { actual: buf.len(), minimum: PrimaryHeader::LEN });
        }
        let ph = match PrimaryHeader::decode(slice_subrange(buf, 0, PrimaryHeader::LEN)) {
            Ok(h) => h,
            Err(e) => return Err(e),
        };
        proof {
            assert(buf@.subrange(0, 6)[0] == buf@[0]);
            assert(ph == spec_primary_header(buf@));
        }
        let data_len = ph.len_minus1 as usize + 1;
        let total_len = PrimaryHeader::LEN + data_len;
        if buf.len() < total_len {
            return Err(Error::NotEnoughData { actual: buf.len(), minimum: total_len });
        }
        Ok(Packet { header: ph, data: slice_to_vec(slice_subrange(buf, 0, total_len)), offset: 0 })
    }
}

/// Offsets and lengths of the packets that a byte stream `data` holds from offset
/// `off` on: packets follow each other without gaps, and a trailing packet that
/// is not complete is dropped.
pub open spec fn stream_packets(data: Seq<u8>, off: int) -> Seq<(int, int)>
    decreases data.len() - off,
{
    if off < 0 || data.len() - off < 6 {
        seq![]
    } else {
        let l = packet_len(spec_primary_header(data.subrange(off, data.len() as int)));
        if data.len() - off < l {
            seq![]
        } else {
            seq![(off, l)] + stream_packets(data, off + l)
        }
    }
}

/// Whether every packet of the stream fits [Packet::MAX_LEN], the largest packet the
/// stream reader takes; [decode_packets] runs on such streams.
pub fn stream_fits(reader: &[u8]) -> (r: bool)
    ensures
        r == forall|i: int|
            0 <= i < stream_packets(reader@, 0).len() ==> #[trigger] stream_packets(reader@, 0)[i].1
                <= Packet::MAX_LEN,
{
    let mut offset: usize = 0;
    let ghost all = stream_packets(reader@, 0);
    let ghost mut seen: int = 0;
    loop
        invariant
            0 <= offset <= reader@.len(),
            all == stream_packets(reader@, 0),
            0 <= seen <= all.len(),
            all == all.subrange(0, seen) + stream_packets(reader@, offset as int),
            forall|i: int| 0 <= i < seen ==> #[trigger] all[i].1 <= Packet::MAX_LEN,
        decreases reader@.len() - offset,
    {
        let rest = slice_subrange(reader, offset, reader.len());
        let ghost tail = stream_packets(reader@, offset as int);
        if rest.len() < PrimaryHeader::LEN {
            proof {
                assert(tail =~= Seq::<(int, int)>::empty());
                assert(all =~= all.subrange(0, seen));
            }
            return true;
        }
        let header = match PrimaryHeader::decode(slice_subrange(rest, 0, PrimaryHeader::LEN)) {
            Ok(h) => h,
            Err(_) => {
                return true;
            },
        };
        let total_len = PrimaryHeader::LEN + header.len_minus1 as usize + 1;
        proof {
            assert(rest@.subrange(0, 6)[0] == rest@[0]);
            assert(header == spec_primary_header(reader@.subrange(offset as int, reader@.len() as int)));
        }
        if rest.len() < total_len {
            proof {
                assert(tail =~= Seq::<(int, int)>::empty());
                assert(all =~= all.subrange(0, seen));
            }
            return true;
        }
        proof {
            assert(tail =~= seq![(offset as int, total_len as int)] + stream_packets(reader@, offset + total_len));
            assert(all[seen] == (offset as int, total_len as int)) by {
                assert(all[seen] == (all.subrange(0, seen) + tail)[seen]);
            }
        }
        if total_len > Packet::MAX_LEN {
            proof {
                assert(stream_packets(reader@, 0)[seen].1 > Packet::MAX_LEN);
            }
            return false;
        }
        proof {
            assert(all.subrange(0, seen + 1) =~= all.subrange(0, seen).push(all[seen]));
            assert(all =~= all.subrange(0, seen + 1) + stream_packets(reader@, offset + total_len));
            seen = seen + 1;
        }
        offset = offset + total_len;
    }
}

/// Return the [Packet]s of a byte synchronized ungrouped packet stream, each with
/// its offset in the stream. A trailing packet that is not complete is dropped.
///
/// For packet streams that may contain packets that utilize packet grouping see
/// [collect_groups].
pub fn decode_packets(reader: &[u8]) -> (packets: Vec<Packet>)
    requires
        forall|i: int|
            0 <= i < stream_packets(reader@, 0).len() ==> #[trigger] stream_packets(
                reader@,
                0,
            )[i].1 <= Packet::MAX_LEN,
    ensures
        packets@.len() == stream_packets(reader@, 0).len(),
        forall|i: int|
            0 <= i < packets@.len() ==> {
                let (off, len) = #[trigger] stream_packets(reader@, 0)[i];
                &&& packets@[i].offset == off
                &&& packets@[i].data@ == reader@.subrange(off, off + len)
                &&& packets@[i].header == spec_primary_header(reader@.subrange(off, off + len))
            },
{
    let mut packets: Vec<Packet> = Vec::new();
    let mut offset: usize = 0;
    let ghost all = stream_packets(reader@, 0);
    loop
        invariant_except_break
            0 <= offset <= reader@.len(),
            all == stream_packets(reader@, 0),
            forall|i: int| 0 <= i < all.len() ==> #[trigger] all[i].1 <= Packet::MAX_LEN,
            all == packets@.map_values(|p: Packet| (p.offset as int, p.data@.len() as int))
                + stream_packets(reader@, offset as int),
            forall|i: int|
                0 <= i < packets@.len() ==> {
                    let (off, len) = #[trigger] all[i];
                    &&& packets@[i].offset == off
                    &&& packets@[i].data@ == reader@.subrange(off, off + len)
                    &&& packets@[i].header == spec_primary_header(
                        reader@.subrange(off, off + len),
                    )
                },
        ensures
            packets@.len() == all.len(),
            forall|i: int|
                0 <= i < packets@.len() ==> {
                    let (off, len) = #[trigger] all[i];
                    &&& packets@[i].offset == off
                    &&& packets@[i].data@ == reader@.subrange(off, off + len)
                    &&& packets@[i].header == spec_primary_header(
                        reader@.subrange(off, off + len),
                    )
                },
        decreases reader@.len() - offset,
    {
        let rest = slice_subrange(reader, offset, reader.len());
        let ghost tail = stream_packets(reader@, offset as int);
        if rest.len() < PrimaryHeader::LEN {
            proof {
                assert(tail =~= Seq::<(int, int)>::empty());
                assert(all =~= packets@.map_values(|p: Packet| (p.offset as int, p.data@.len() as int)));
            }
            break;
        }
        let header = match PrimaryHeader::decode(slice_subrange(rest, 0, PrimaryHeader::LEN)) {
            Ok(h) => h,
            Err(_) => {
                break;
            },
        };
        let total_len = PrimaryHeader::LEN + header.len_minus1 as usize + 1;
        proof {
            assert(rest@.subrange(0, 6)[0] == rest@[0]);
            assert(header == spec_primary_header(reader@.subrange(offset as int, reader@.len() as int)));
        }
        if rest.len() < total_len {
            proof {
                assert(tail =~= Seq::<(int, int)>::empty());
                assert(all =~= packets@.map_values(|p: Packet| (p.offset as int, p.data@.len() as int)));
            }
            break;
        }
        proof {
            assert(tail[0] == (offset as int, total_len as int));
            assert(all[packets@.len() as int] == tail[0]) by {
                assert(all[packets@.len() as int] == (packets@.map_values(|p: Packet| (p.offset as int, p.data@.len() as int)) + tail)[packets@.len() as int]);
            }
        }
        let data = slice_to_vec(slice_subrange(rest, 0, total_len));
        let ghost old_packets = packets@;
        packets.push(Packet { header, data, offset });
        proof {
            let pk = packets@[packets@.len() - 1];
            assert(pk.data@ =~= reader@.subrange(offset as int, offset + total_len));
            assert(reader@.subrange(offset as int, offset + total_len).subrange(0, 6) =~= rest@.subrange(0, 6));
            assert(tail =~= seq![(offset as int, total_len as int)] + stream_packets(reader@, offset + total_len));
            assert(packets@.map_values(|p: Packet| (p.offset as int, p.data@.len() as int)) =~= old_packets.map_values(|p: Packet| (p.offset as int, p.data@.len() as int)).push((offset as int, total_len as int)));
        }
        offset = offset + total_len;
    }
    packets
}

/// Number of sequence ids missing between `last` and `cur`, as the formula of
/// [missing_packets] computes it.
pub open spec fn spec_missing_packets(cur: u16, last: u16) -> int {
    let expected = if last + 1 > PrimaryHeader::SEQ_MAX {
        0
    } else {
        last + 1
    };
    if cur != expected {
        if last + 1 > cur {
            cur + PrimaryHeader::SEQ_MAX - last
        } else {
            cur - last - 1
        }
    } else {
        0
    }
}

/// The inputs on which [missing_packets] computes without overflow.
pub open spec fn missing_packets_defined(cur: u16, last: u16) -> bool {
    let expected = if last + 1 > PrimaryHeader::SEQ_MAX {
        0
    } else {
        last + 1
    };
    &&& last + 1 <= u16::MAX
    &&& (cur != expected && last + 1 > cur) ==> (cur + PrimaryHeader::SEQ_MAX <= u16::MAX
        && cur + PrimaryHeader::SEQ_MAX >= last)
}

/// Calculate the number of missing sequence ids.
///
/// `cur` is the current sequence id. `last` is the sequence id seen before `cur`.
pub fn missing_packets(cur: u16, last: u16) -> (n: u16)
    requires
        missing_packets_defined(cur, last),
    ensures
        n == spec_missing_packets(cur, last),
{
    let expected = if last + 1 > PrimaryHeader::SEQ_MAX {
        0
    } else {
        last + 1
    };
    if cur != expected {
        if last + 1 > cur {
            return cur + PrimaryHeader::SEQ_MAX - last;
        }
        return cur - last - 1;
    }
    0
}

/// For sequence ids in range, the number of missing packets is the distance from
/// `last` to `cur` modulo the sequence id space, less one: the counter wraps from
/// `SEQ_MAX` to 0.
pub proof fn lemma_missing_packets_wraps(cur: u16, last: u16)
    requires
        cur <= PrimaryHeader::SEQ_MAX,
        last <= PrimaryHeader::SEQ_MAX,
    ensures
        missing_packets_defined(cur, last),
        spec_missing_packets(cur, last) == (cur - last - 1) % (PrimaryHeader::SEQ_MAX + 1),
{
}

/// Packet data representing a CCSDS packet group according to the packet
/// sequencing value in primary header.
#[derive(Debug, Clone)]
pub struct PacketGroup {
    pub apid: Apid,
    pub packets: Vec<Packet>,
}

/// Whether the sequence ids of each two neighbouring packets can be compared.
pub open spec fn neighbours_defined(packets: Seq<Packet>) -> bool {
    forall|i: int|
        0 <= i < packets.len() - 1 ==> missing_packets_defined(
            #[trigger] packets[i + 1].header.sequence_id,
            packets[i].header.sequence_id,
        )
}

/// Whether a sequence id is missing between two neighbouring packets.
pub open spec fn spec_have_missing(packets: Seq<Packet>) -> bool {
    exists|i: int|
        0 <= i < packets.len() - 1 && spec_missing_packets(
            #[trigger] packets[i + 1].header.sequence_id,
            packets[i].header.sequence_id,
        ) > 0
}

/// A group is complete when it is a single standalone packet, or runs from a first
/// to a last packet with no sequence id missing.
pub open spec fn spec_complete(packets: Seq<Packet>) -> bool {
    if packets.len() == 0 {
        false
    } else if packets.len() == 1 {
        packets[0].header.sequence_flags == PrimaryHeader::SEQ_UNSEGMENTED
    } else {
        packets[0].header.sequence_flags == PrimaryHeader::SEQ_FIRST
            && packets.last().header.sequence_flags == PrimaryHeader::SEQ_LAST
            && !spec_have_missing(packets)
    }
}

impl PacketGroup {
    /// Return true if this packet group is complete.
    ///
    /// Valid means at least 1 packet and all the packets for a complete group with no missing
    /// packets.
    pub fn complete(&self) -> (r: bool)
        requires
            self.packets@.len() >= 2 && self.packets@[0].header.sequence_flags
                == PrimaryHeader::SEQ_FIRST && self.packets@.last().header.sequence_flags
                == PrimaryHeader::SEQ_LAST ==> neighbours_defined(self.packets@),
        ensures
            r == spec_complete(self.packets@),
    {
        if self.packets.len() == 0 {
            false
        } else if self.packets.len() == 1 {
            self.packets[0].is_standalone()
        } else {
            self.packets[0].is_first() && self.packets[self.packets.len() - 1].is_last()
                && !self.have_missing()
        }
    }

    /// Whether any sequence id is missing between two neighbouring packets of this group.
    pub fn have_missing(&self) -> (r: bool)
        requires
            self.packets@.len() >= 1,
            neighbours_defined(self.packets@),
        ensures
            r == spec_have_missing(self.packets@),
    {
        let n = self.packets.len();
        let mut i: usize = 0;
        while i + 1 < n
            invariant
                n == self.packets@.len(),
                n >= 1,
                i + 1 <= n,
                neighbours_defined(self.packets@),
                forall|j: int|
                    0 <= j < i ==> spec_missing_packets(
                        #[trigger] self.packets@[j + 1].header.sequence_id,
                        self.packets@[j].header.sequence_id,
                    ) == 0,
            decreases n - i,
        {
            let a = self.packets[i].header.sequence_id;
            let b = self.packets[i + 1].header.sequence_id;
            if missing_packets(b, a) > 0 {
                return true;
            }
            i = i + 1;
        }
        false
    }
}

/// Whether packet `i` carries on the group that packet `i - 1` belongs to: it has the
/// group's apid, is a continuation or the last packet of a group, and the packet
/// before it did not end the group.
pub open spec fn continues_group(s: Seq<Packet>, apid: Apid, i: int) -> bool {
    &&& 1 <= i < s.len()
    &&& s[i].header.apid == apid
    &&& (s[i].header.sequence_flags == PrimaryHeader::SEQ_CONTINUATION || s[i].header.sequence_flags
        == PrimaryHeader::SEQ_LAST)
    &&& s[i - 1].header.sequence_flags != PrimaryHeader::SEQ_LAST
}

/// End of the group of apid `apid` that packet `i` carries on, if it does.
pub open spec fn run_end(s: Seq<Packet>, apid: Apid, i: int) -> int
    decreases s.len() - i,
{
    if continues_group(s, apid, i) {
        run_end(s, apid, i + 1)
    } else {
        i
    }
}

/// Length of the group that starts a packet sequence: a standalone packet forms a
/// group of its own; any other packet opens a group that takes the following
/// continuation packets of its apid up to and including the last packet of the
/// group. A packet of another apid, a first packet of a new group or a standalone
/// packet ends the group before it.
pub open spec fn first_group_len(s: Seq<Packet>) -> int
    recommends
        s.len() > 0,
{
    if s[0].header.sequence_flags == PrimaryHeader::SEQ_UNSEGMENTED {
        1
    } else {
        run_end(s, s[0].header.apid, 1)
    }
}

pub proof fn lemma_run_end_bounds(s: Seq<Packet>, apid: Apid, i: int)
    requires
        0 <= i <= s.len(),
    ensures
        i <= run_end(s, apid, i) <= s.len(),
        forall|k: int| i <= k < run_end(s, apid, i) ==> #[trigger] s[k].header.apid == apid,
        i >= 1 && run_end(s, apid, i) < s.len() ==> !continues_group(s, apid, run_end(s, apid, i)),
    decreases s.len() - i,
{
    if continues_group(s, apid, i) {
        lemma_run_end_bounds(s, apid, i + 1);
    }
}

pub proof fn lemma_first_group_len(s: Seq<Packet>)
    requires
        s.len() > 0,
    ensures
        1 <= first_group_len(s) <= s.len(),
{
    lemma_run_end_bounds(s, s[0].header.apid, 1);
}

/// The packet groups of a packet sequence, in order.
pub open spec fn spec_groups(s: Seq<Packet>) -> Seq<Seq<Packet>>
    decreases s.len(),
{
    if s.len() == 0 {
        seq![]
    } else {
        proof {
            lemma_first_group_len(s);
        }
        let n = first_group_len(s);
        seq![s.subrange(0, n)] + spec_groups(s.subrange(n, s.len() as int))
    }
}

/// Grouping loses no packet and keeps their order: the groups, put one after the
/// other, give back the packet sequence.
pub proof fn lemma_groups_flatten(s: Seq<Packet>)
    ensures
        spec_groups(s).flatten() == s,
    decreases s.len(),
{
    if s.len() > 0 {
        lemma_first_group_len(s);
        let n = first_group_len(s);
        let rest = s.subrange(n, s.len() as int);
        lemma_groups_flatten(rest);
        let g = spec_groups(s);
        assert(g == seq![s.subrange(0, n)] + spec_groups(rest));
        vstd::seq_lib::lemma_flatten_concat(seq![s.subrange(0, n)], spec_groups(rest));
        assert(seq![s.subrange(0, n)].flatten() =~= s.subrange(0, n)) by {
            reveal_with_fuel(Seq::flatten, 2);
        }
        assert(s.subrange(0, n) + rest =~= s);
    }
}

/// Every group holds at least one packet, and all of its packets have the apid of
/// its first one.
pub proof fn lemma_groups_single_apid(s: Seq<Packet>)
    ensures
        forall|i: int|
            0 <= i < spec_groups(s).len() ==> #[trigger] spec_groups(s)[i].len() >= 1 && forall|
                k: int,
            |
                0 <= k < spec_groups(s)[i].len() ==> #[trigger] spec_groups(s)[i][k].header.apid
                    == spec_groups(s)[i][0].header.apid,
    decreases s.len(),
{
    if s.len() > 0 {
        lemma_first_group_len(s);
        lemma_run_end_bounds(s, s[0].header.apid, 1);
        let n = first_group_len(s);
        let rest = s.subrange(n, s.len() as int);
        lemma_groups_single_apid(rest);
        assert(spec_groups(s) == seq![s.subrange(0, n)] + spec_groups(rest));
        assert forall|i: int| 0 <= i < spec_groups(s).len() implies #[trigger] spec_groups(s)[i].len() >= 1 && forall|
                k: int,
            |
                0 <= k < spec_groups(s)[i].len() ==> #[trigger] spec_groups(s)[i][k].header.apid
                    == spec_groups(s)[i][0].header.apid by {
            if i > 0 {
                assert(spec_groups(s)[i] == spec_groups(rest)[i - 1]);
            }
        }
    }
}

/// Groups packets, in order, into [PacketGroup]s.
pub struct PacketGroupIter {
    packets: VecDeque<Packet>,
}

impl PacketGroupIter {
    /// The packets not yet handed out, in order.
    pub closed spec fn remaining(&self) -> Seq<Packet> {
        self.packets@
    }

    /// Create an iterator that sources packets directly from the provided packets.
    ///
    /// Results generated by the iterator will always be `Ok`.
    pub fn with_packets(packets: Vec<Packet>) -> (it: Self)
        ensures
            it.remaining() == packets@,
    {
        let deque = to_deque(packets);
        PacketGroupIter { packets: deque }
    }

    /// The next packet group, or `None` once every packet was handed out.
    pub fn next(&mut self) -> (r: Option<Result<PacketGroup, Error>>)
        ensures
            old(self).remaining().len() == 0 ==> r is None && final(self).remaining() == old(
                self,
            ).remaining(),
            old(self).remaining().len() > 0 ==> {
                let n = first_group_len(old(self).remaining());
                &&& r matches Some(Ok(g))
                &&& g.packets@ == old(self).remaining().subrange(0, n)
                &&& g.apid == old(self).remaining()[0].header.apid
                &&& final(self).remaining() == old(self).remaining().subrange(
                    n,
                    old(self).remaining().len() as int,
                )
            },
    {
        let ghost r0 = self.packets@;
        let first = match self.packets.pop_front() {
            Some(p) => p,
            None => return None,
        };
        let apid = first.header.apid;
        if first.is_standalone() {
            return Some(Ok(PacketGroup { apid, packets: vec![first] }));
        }
        let mut group: Vec<Packet> = Vec::new();
        group.push(first);
        proof {
            assert(group@ =~= r0.subrange(0, 1));
        }
        while self.packets.len() > 0 && self.packets[0].header.apid == apid && (self.packets[0].is_cont()
            || self.packets[0].is_last()) && !group[group.len() - 1].is_last()
            invariant
                r0.len() > 0,
                apid == r0[0].header.apid,
                r0[0].header.sequence_flags != PrimaryHeader::SEQ_UNSEGMENTED,
                1 <= group@.len() <= r0.len(),
                group@ == r0.subrange(0, group@.len() as int),
                self.packets@ == r0.subrange(group@.len() as int, r0.len() as int),
                run_end(r0, apid, 1) == run_end(r0, apid, group@.len() as int),
            decreases self.packets@.len(),
        {
            let ghost k = group@.len() as int;
            let p = self.packets.pop_front().unwrap();
            group.push(p);
            proof {
                assert(group@ =~= r0.subrange(0, k + 1));
                assert(self.packets@ =~= r0.subrange(k + 1, r0.len() as int));
            }
        }
        proof {
            let k = group@.len() as int;
            assert(run_end(r0, apid, k) == k);
        }
        Some(Ok(PacketGroup { apid, packets: group }))
    }
}

/// Group packets into [PacketGroup]s.
///
/// This is necessary for packet streams containing APIDs that utilize packet grouping sequence
/// flags values [SEQ_FIRST](PrimaryHeader), [SEQ_CONTINUATION](PrimaryHeader), and
/// [SEQ_LAST](PrimaryHeader). It can also be used for
/// non-grouped APIDs ([SEQ_UNSEGMENTED](PrimaryHeader)), however, it is not necessary in such
/// cases and will result in each group containing a single packet.
pub fn collect_groups(packets: Vec<Packet>) -> (groups: Vec<PacketGroup>)
    ensures
        groups@.len() == spec_groups(packets@).len(),
        forall|i: int|
            0 <= i < groups@.len() ==> (#[trigger] groups@[i]).packets@ == spec_groups(
                packets@,
            )[i] && groups@[i].apid == spec_groups(packets@)[i][0].header.apid,
{
    let ghost all = packets@;
    let mut it = PacketGroupIter::with_packets(packets);
    let mut groups: Vec<PacketGroup> = Vec::new();
    loop
        invariant
            spec_groups(all) == groups@.map_values(|g: PacketGroup| g.packets@) + spec_groups(
                it.remaining(),
            ),
            forall|i: int|
                0 <= i < groups@.len() ==> (#[trigger] groups@[i]).apid == groups@[i].packets@[0].header.apid
                    && groups@[i].packets@.len() >= 1,
        ensures
            groups@.len() == spec_groups(all).len(),
            forall|i: int|
                0 <= i < groups@.len() ==> (#[trigger] groups@[i]).packets@ == spec_groups(all)[i]
                    && groups@[i].apid == spec_groups(all)[i][0].header.apid,
        decreases it.remaining().len(),
    {
        let ghost rem = it.remaining();
        match it.next() {
            Some(Ok(g)) => {
                proof {
                    lemma_first_group_len(rem);
                    let n = first_group_len(rem);
                    assert(spec_groups(rem) == seq![rem.subrange(0, n)] + spec_groups(
                        rem.subrange(n, rem.len() as int),
                    ));
                }
                let ghost before = groups@;
                groups.push(g);
                proof {
                    assert(groups@.map_values(|g: PacketGroup| g.packets@) =~= before.map_values(
                        |g: PacketGroup| g.packets@,
                    ).push(g.packets@));
                    assert(spec_groups(all) =~= groups@.map_values(|g: PacketGroup| g.packets@)
                        + spec_groups(it.remaining()));
                }
            },
            _ => {
                proof {
                    assert(spec_groups(rem) =~= Seq::<Seq<Packet>>::empty());
                    assert(spec_groups(all) =~= groups@.map_values(|g: PacketGroup| g.packets@));
                    assert forall|i: int| 0 <= i < groups@.len() implies (#[trigger] groups@[i]).packets@ == spec_groups(all)[i] by {
                        assert(spec_groups(all)[i] == groups@.map_values(|g: PacketGroup| g.packets@)[i]);
                    }
                }
                break;
            },
        }
    }
    groups
}

} // verus!
