//! Demultiplexing of space packets out of the MPDUs of transfer frames.
use vstd::prelude::*;
use std::collections::{HashMap, VecDeque};
use vstd::slice::{slice_subrange, slice_to_vec};
use crate::framing::frame::{spec_first_header, Frame, Vcid, MPDU};
use crate::framing::reed_solomon::Integrity;
use crate::queue::to_deque;
use crate::spacepacket::packet::{packet_len, spec_primary_header, Packet, PrimaryHeader};

verus! {

broadcast use vstd::std_specs::hash::group_hash_axioms;

/// Length of the operational control field in a frame trailer.
pub const OCF_LEN: usize = 4;
/// Length of the frame error control field in a frame trailer.
pub const FEC_LEN: usize = 2;
/// Length of the frame header error control field that follows the VCDU header.
pub const FHEC_LEN: usize = 2;

/// Per-channel framing configuration
#[derive(Clone, Copy, Debug, Default)]
pub struct ChannelConfig {
    pub izone_len: usize,
    /// Frame header error control
    pub fhec: bool,
    /// Frame error control
    pub fec: bool,
    /// Operational control field
    pub ocf: bool,
}

/// Bytes a frame trailer holds under `cfg`.
pub open spec fn trailer_len(cfg: ChannelConfig) -> int {
    (if cfg.ocf {
        OCF_LEN as int
    } else {
        0
    }) + (if cfg.fec {
        FEC_LEN as int
    } else {
        0
    })
}

/// Bytes before the MPDU under `cfg`: the VCDU header, the header error control
/// field if present, and the insert zone.
pub open spec fn mpdu_start(cfg: ChannelConfig) -> int {
    6 + (if cfg.fhec {
        FHEC_LEN as int
    } else {
        0
    }) + cfg.izone_len
}

/// Whether a frame of `len` bytes holds the header, insert zone and trailer that
/// `cfg` describes.
pub open spec fn frame_fits(cfg: ChannelConfig, len: int) -> bool {
    trailer_len(cfg) <= len && mpdu_start(cfg) <= len - trailer_len(cfg)
}

/// The MPDU bytes of a frame under `cfg`.
pub open spec fn frame_body(cfg: ChannelConfig, data: Seq<u8>) -> Seq<u8> {
    data.subrange(mpdu_start(cfg), data.len() - trailer_len(cfg))
}

/// The state of a virtual channel: the packet bytes cached so far, whether the
/// channel is in sync with the packet boundaries, and whether any frame that fed
/// the cache was Reed-Solomon corrected.
pub type TrackerState = (Seq<u8>, bool, bool);

/// The state of a channel that has seen no usable data.
pub open spec fn reset_state() -> TrackerState {
    (Seq::empty(), false, false)
}

/// A primary header that packets are decoded for: version 0 and telemetry type.
pub open spec fn valid_header(h: PrimaryHeader) -> bool {
    h.version == 0 && h.type_flag == 0
}

/// Splits the whole packets off the front of `cache`: the packets, the bytes that
/// are left, and whether sync holds, which is lost at a header that is not valid.
pub open spec fn split_packets(cache: Seq<u8>) -> (Seq<Seq<u8>>, Seq<u8>, bool)
    decreases cache.len(),
{
    if cache.len() < 6 {
        (seq![], cache, true)
    } else {
        let h = spec_primary_header(cache);
        if !valid_header(h) {
            (seq![], seq![], false)
        } else if cache.len() < packet_len(h) {
            (seq![], cache, true)
        } else {
            let need = packet_len(h);
            let rest = split_packets(cache.subrange(need, cache.len() as int));
            (seq![cache.subrange(0, need)] + rest.0, rest.1, rest.2)
        }
    }
}

/// Splitting a cache yields whole packets with valid headers, each exactly as long
/// as its header says; while sync holds, the packets and the bytes left are the
/// cache itself, in order, with nothing lost.
pub proof fn lemma_split_packets(cache: Seq<u8>)
    ensures
        ({
            let (ps, rest, ok) = split_packets(cache);
            &&& ok ==> ps.flatten() + rest == cache
            &&& forall|i: int|
                0 <= i < ps.len() ==> {
                    &&& (#[trigger] ps[i]).len() >= 6
                    &&& valid_header(spec_primary_header(ps[i]))
                    &&& ps[i].len() == packet_len(spec_primary_header(ps[i]))
                }
        }),
    decreases cache.len(),
{
    if cache.len() >= 6 {
        let h = spec_primary_header(cache);
        if valid_header(h) && cache.len() >= packet_len(h) {
            let need = packet_len(h);
            let first = cache.subrange(0, need);
            let tail = cache.subrange(need, cache.len() as int);
            lemma_split_packets(tail);
            let (ps, rest, ok) = split_packets(tail);
            assert(first[0] == cache[0] && first[1] == cache[1] && first[2] == cache[2] && first[3]
                == cache[3] && first[4] == cache[4] && first[5] == cache[5]);
            assert(spec_primary_header(first) == h);
            let all = seq![first] + ps;
            assert(split_packets(cache).0 == all);
            assert forall|i: int| 0 <= i < all.len() implies {
                &&& (#[trigger] all[i]).len() >= 6
                &&& valid_header(spec_primary_header(all[i]))
                &&& all[i].len() == packet_len(spec_primary_header(all[i]))
            } by {
                if i > 0 {
                    assert(all[i] == ps[i - 1]);
                }
            }
            if ok {
                vstd::seq_lib::lemma_flatten_concat(seq![first], ps);
                assert(seq![first].flatten() =~= first) by {
                    reveal_with_fuel(Seq::flatten, 2);
                }
                assert(first + tail =~= cache);
                assert(all.flatten() + rest =~= first + (ps.flatten() + rest));
            }
        }
    } else {
        assert(Seq::<Seq<u8>>::empty().flatten() =~= Seq::<u8>::empty());
        assert(Seq::<u8>::empty() + cache =~= cache);
    }
}

/// The channel state and packets after splitting the packets off a cache.
pub open spec fn extract(cache: Seq<u8>, rs_corrected: bool) -> (TrackerState, Seq<Seq<u8>>) {
    let (ps, rest, ok) = split_packets(cache);
    if ok {
        ((rest, true, rs_corrected), ps)
    } else {
        (reset_state(), ps)
    }
}

/// What one frame, with MPDU bytes `body`, does to the state of its channel, and
/// the packets it completes.
pub open spec fn demux_frame(
    t: TrackerState,
    integrity: Option<Integrity>,
    missing: u32,
    body: Seq<u8>,
) -> (TrackerState, Seq<Seq<u8>>) {
    if integrity == Some(Integrity::Uncorrectable) || integrity == Some(Integrity::NotCorrected) {
        (reset_state(), seq![])
    } else {
        let rsc = if integrity == Some(Integrity::Corrected) {
            true
        } else {
            t.2
        };
        let t1 = if missing > 0 {
            reset_state()
        } else {
            (t.0, t.1, rsc)
        };
        let fhp = spec_first_header(body) as int;
        let payload = body.subrange(2, body.len() as int);
        if t1.1 {
            extract(t1.0 + payload, t1.2)
        } else if fhp == MPDU::NO_HEADER || fhp == MPDU::FILL || fhp > payload.len() {
            (t1, seq![])
        } else {
            extract(payload.subrange(fhp, payload.len() as int), t1.2)
        }
    }
}

/// The state of a channel, or the reset state for a channel not seen yet.
pub open spec fn state_of(trackers: Map<Vcid, TrackerState>, vcid: Vcid) -> TrackerState {
    if trackers.contains_key(vcid) {
        trackers[vcid]
    } else {
        reset_state()
    }
}

/// The configuration for a channel: its own if it has one, else the default.
pub open spec fn config_of(
    channels: Map<Vcid, ChannelConfig>,
    default: Option<ChannelConfig>,
    vcid: Vcid,
) -> Option<ChannelConfig> {
    if channels.contains_key(vcid) {
        Some(channels[vcid])
    } else {
        default
    }
}

/// What one frame does to the channel states, and the packets it completes; `None`
/// if there is no configuration for its channel or no MPDU in it.
pub open spec fn frame_step(
    channels: Map<Vcid, ChannelConfig>,
    default: Option<ChannelConfig>,
    trackers: Map<Vcid, TrackerState>,
    f: Frame,
) -> Option<(Map<Vcid, TrackerState>, Seq<Seq<u8>>)> {
    match config_of(channels, default, f.header.vcid) {
        None => None,
        Some(cfg) => {
            let body = frame_body(cfg, f.data@);
            if body.len() < 2 {
                None
            } else {
                let (t, ps) = demux_frame(
                    state_of(trackers, f.header.vcid),
                    f.integrity,
                    f.missing,
                    body,
                );
                Some((trackers.insert(f.header.vcid, t), ps))
            }
        },
    }
}

/// Runs frames through the demultiplexer up to the first that completes a packet
/// or has no MPDU: the channel states then, the frames left and the packets.
pub open spec fn demux_run(
    channels: Map<Vcid, ChannelConfig>,
    default: Option<ChannelConfig>,
    trackers: Map<Vcid, TrackerState>,
    frames: Seq<Frame>,
) -> (Map<Vcid, TrackerState>, Seq<Frame>, Seq<Seq<u8>>)
    decreases frames.len(),
{
    if frames.len() == 0 {
        (trackers, frames, seq![])
    } else {
        match frame_step(channels, default, trackers, frames[0]) {
            None => (trackers, frames.drop_first(), seq![]),
            Some((t, ps)) => if ps.len() > 0 {
                (t, frames.drop_first(), ps)
            } else {
                demux_run(channels, default, t, frames.drop_first())
            },
        }
    }
}

/// A packet as the demultiplexer makes it: its header is the one its bytes begin
/// with, and it has no stream offset.
pub open spec fn demuxed(p: Packet) -> bool {
    &&& p.data@.len() >= 6
    &&& p.header == spec_primary_header(p.data@)
    &&& p.offset == 0
}

/// The packet state of one virtual channel.
#[derive(Clone, Debug)]
pub struct VcidTracker {
    vcid: Vcid,
    /// Caches partial packets for this vcid
    cache: Vec<u8>,
    /// True when any frame used to fill the cache was rs corrected
    rs_corrected: bool,
    /// True when a FHP has been found and data should be added to cache. False
    /// where there is a missing data due to RS failure or missing frames.
    sync: bool,
}

impl VcidTracker {
    /// The channel this tracker follows.
    pub closed spec fn vcid_view(&self) -> Vcid {
        self.vcid
    }

    /// The cache, sync and correction state of this tracker.
    pub closed spec fn state(&self) -> TrackerState {
        (self.cache@, self.sync, self.rs_corrected)
    }

    pub fn new(vcid: Vcid) -> (t: Self)
        ensures
            t.vcid_view() == vcid,
            t.state() == reset_state(),
    {
        VcidTracker { vcid, sync: false, cache: Vec::new(), rs_corrected: false }
    }

    pub fn reset(&mut self)
        ensures
            final(self).vcid_view() == old(self).vcid_view(),
            final(self).state() == reset_state(),
    {
        self.cache.clear();
        self.sync = false;
        self.rs_corrected = false;
        assert(self.cache@ =~= Seq::<u8>::empty());
    }
}

/// The state of each tracker in a map of trackers.
pub open spec fn states(m: Map<Vcid, VcidTracker>) -> Map<Vcid, TrackerState> {
    m.map_values(|t: VcidTracker| t.state())
}

/// Decode packets within a packet with version 0 and telemetry type only.
pub fn valid_packet_header(header: &PrimaryHeader) -> (r: bool)
    ensures
        r == valid_header(*header),
{
    if header.version != 0 || header.type_flag != 0 {
        return false;
    }
    true
}

/// The header the first six bytes of two sequences encode is the same when those
/// bytes are.
proof fn lemma_header_prefix(a: Seq<u8>, b: Seq<u8>)
    requires
        a.len() >= 6,
        b.len() >= 6,
        forall|i: int| 0 <= i < 6 ==> a[i] == b[i],
    ensures
        spec_primary_header(a) == spec_primary_header(b),
{
    assert(a[0] == b[0] && a[1] == b[1] && a[2] == b[2] && a[3] == b[3] && a[4] == b[4] && a[5]
        == b[5]);
}

/// Splits whole packets off the tracker's cache onto `ready`, as [split_packets]
/// says, resetting the tracker where sync is lost.
fn extract_packets(tracker: &mut VcidTracker, ready: &mut VecDeque<Packet>)
    requires
        old(tracker).state().1,
        forall|i: int| 0 <= i < old(ready)@.len() ==> demuxed(#[trigger] old(ready)@[i]),
    ensures
        final(tracker).vcid_view() == old(tracker).vcid_view(),
        ({
            let (t, ps) = extract(old(tracker).state().0, old(tracker).state().2);
            &&& final(tracker).state() == t
            &&& final(ready)@.map_values(|p: Packet| p.data@) == old(ready)@.map_values(
                |p: Packet| p.data@,
            ) + ps
        }),
        forall|i: int| 0 <= i < final(ready)@.len() ==> demuxed(#[trigger] final(ready)@[i]),
{
    let ghost c0 = tracker.cache@;
    let ghost rsc = tracker.rs_corrected;
    let ghost r0 = ready@.map_values(|p: Packet| p.data@);
    let ghost mut emitted: Seq<Seq<u8>> = seq![];
    loop
        invariant
            tracker.vcid_view() == old(tracker).vcid_view(),
            tracker.sync,
            tracker.rs_corrected == rsc,
            rsc == old(tracker).state().2,
            c0 == old(tracker).state().0,
            r0 == old(ready)@.map_values(|p: Packet| p.data@),
            split_packets(c0) == (
                emitted + split_packets(tracker.cache@).0,
                split_packets(tracker.cache@).1,
                split_packets(tracker.cache@).2,
            ),
            ready@.map_values(|p: Packet| p.data@) == r0 + emitted,
            forall|i: int| 0 <= i < ready@.len() ==> demuxed(#[trigger] ready@[i]),
        decreases tracker.cache@.len(),
    {
        let ghost c = tracker.cache@;
        if tracker.cache.len() < PrimaryHeader::LEN {
            proof {
                assert(emitted + seq![] =~= emitted);
            }
            return;
        }
        let header = match PrimaryHeader::decode(tracker.cache.as_slice()) {
            Ok(h) => h,
            Err(_) => {
                return;
            },
        };
        if !valid_packet_header(&header) {
            proof {
                assert(emitted + seq![] =~= emitted);
            }
            tracker.reset();
            return;
        }
        let need = header.len_minus1 as usize + 1 + PrimaryHeader::LEN;
        if tracker.cache.len() < need {
            proof {
                assert(emitted + seq![] =~= emitted);
            }
            return;
        }
        let data = slice_to_vec(slice_subrange(tracker.cache.as_slice(), 0, need));
        let tail = slice_to_vec(slice_subrange(tracker.cache.as_slice(), need, tracker.cache.len()));
        proof {
            lemma_header_prefix(data@, c);
        }
        let ghost before = ready@;
        ready.push_back(Packet { header, data, offset: 0 });
        tracker.cache = tail;
        proof {
            assert(ready@.map_values(|p: Packet| p.data@) =~= before.map_values(|p: Packet| p.data@).push(
                c.subrange(0, need as int),
            ));
            assert(split_packets(c).0 =~= seq![c.subrange(0, need as int)] + split_packets(
                tracker.cache@,
            ).0);
            assert(emitted + split_packets(c).0 =~= emitted.push(c.subrange(0, need as int))
                + split_packets(tracker.cache@).0);
            emitted = emitted.push(c.subrange(0, need as int));
        }
    }
}

/// Demux packets from frames.
///
/// Packets are decoded in the order in which they are received, per VCID.
///
/// Packet data may be dropped/lost in the following cases:
///
/// * Not enough data left to construct an entire frame.
/// * Not enough data left to construct an entire packet.
/// * Not enough data within the frame to construct a packet primary header.
/// * Frame received with that contains errors ([Integrity::Uncorrectable],
///   [Integrity::NotCorrected])
/// * Invalid MPDU first header pointer value
/// * Discontinuity in the frame counter from the current frame to the previous frame of the same
///   VCID.
pub struct PacketDemux {
    frames: VecDeque<Frame>,
    /// Cache of partial packet data from frames that has not yet been decoded into
    /// packets. There should only be up to about 1 frame worth of data in the cache
    cache: HashMap<Vcid, VcidTracker>,
    /// Packets that have already been decoded and are waiting to be provided.
    ready: VecDeque<Packet>,
    default_config: Option<ChannelConfig>,
    channel_config: HashMap<Vcid, ChannelConfig>,
}

impl PacketDemux {
    /// The frames not yet taken.
    pub closed spec fn frames_view(&self) -> Seq<Frame> {
        self.frames@
    }

    /// The state of each channel seen so far.
    pub closed spec fn trackers_view(&self) -> Map<Vcid, TrackerState> {
        states(self.cache@)
    }

    /// The bytes of the packets decoded and not yet handed out, oldest first.
    pub closed spec fn ready_view(&self) -> Seq<Seq<u8>> {
        self.ready@.map_values(|p: Packet| p.data@)
    }

    /// The configuration used for channels without one of their own.
    pub closed spec fn default_view(&self) -> Option<ChannelConfig> {
        self.default_config
    }

    /// The per-channel configurations.
    pub closed spec fn channels_view(&self) -> Map<Vcid, ChannelConfig> {
        self.channel_config@
    }

    /// The packets waiting are all as the demultiplexer makes them.
    pub closed spec fn wf(&self) -> bool {
        forall|i: int| 0 <= i < self.ready@.len() ==> demuxed(#[trigger] self.ready@[i])
    }

    /// Whether every frame not yet taken is long enough for its channel's
    /// configuration, where it has one.
    pub open spec fn frames_fit(&self) -> bool {
        forall|i: int|
            0 <= i < self.frames_view().len() ==> match config_of(
                self.channels_view(),
                self.default_view(),
                (#[trigger] self.frames_view()[i]).header.vcid,
            ) {
                Some(cfg) => frame_fits(cfg, self.frames_view()[i].data@.len() as int),
                None => true,
            }
    }

    /// Create a new [PacketDemux].
    ///
    /// # Arguments:
    /// * `frames` - Frames to demux packets from
    pub fn new(frames: Vec<Frame>) -> (d: Self)
        ensures
            d.wf(),
            d.frames_view() == frames@,
            d.trackers_view() == Map::<Vcid, TrackerState>::empty(),
            d.ready_view() == Seq::<Seq<u8>>::empty(),
            d.default_view() is None,
            d.channels_view() == Map::<Vcid, ChannelConfig>::empty(),
    {
        let deque = to_deque(frames);
        let d = Self {
            frames: deque,
            cache: HashMap::new(),
            ready: VecDeque::new(),
            channel_config: HashMap::new(),
            default_config: None,
        };
        proof {
            assert(d.trackers_view() =~= Map::<Vcid, TrackerState>::empty());
            assert(d.ready_view() =~= Seq::<Seq<u8>>::empty());
        }
        d
    }

    /// Set the default framing configuration if no per-channel configuration is avaialble.
    ///
    /// # Arguments
    /// * `izone_len` - Insert zone length in bytes.
    /// * `fhec` - Frame header contains frame header error control bytes
    /// * `ocf` - Frame trailer contains operational control field bytes
    /// * `fec` - Frame trailer contains frame error control bytes
    pub fn with_defaults(self, izone_len: usize, fhec: bool, ocf: bool, fec: bool) -> (d: Self)
        ensures
            d.wf() == self.wf(),
            d.frames_view() == self.frames_view(),
            d.trackers_view() == self.trackers_view(),
            d.ready_view() == self.ready_view(),
            d.default_view() == Some(ChannelConfig { izone_len, fhec, fec, ocf }),
            d.channels_view() == self.channels_view(),
    {
        let mut d = self;
        d.default_config = Some(ChannelConfig { izone_len, fhec, ocf, fec });
        proof {
            assert(d.ready@ =~= self.ready@);
        }
        d
    }

    /// Add an chanel specific framing configuration.
    pub fn with_channel_config(
        self,
        vcid: Vcid,
        izone_len: usize,
        fhec: bool,
        ocf: bool,
        fec: bool,
    ) -> (d: Self)
        ensures
            d.wf() == self.wf(),
            d.frames_view() == self.frames_view(),
            d.trackers_view() == self.trackers_view(),
            d.ready_view() == self.ready_view(),
            d.default_view() == self.default_view(),
            d.channels_view() == self.channels_view().insert(
                vcid,
                ChannelConfig { izone_len, fhec, fec, ocf },
            ),
    {
        let mut d = self;
        d.channel_config.insert(vcid, ChannelConfig { izone_len, fhec, ocf, fec });
        proof {
            assert(d.ready@ =~= self.ready@);
        }
        d
    }

    /// Get a frames MPDU based on the channel config
    fn mpdu(&self, frame: &Frame) -> (r: Option<MPDU>)
        requires
            match config_of(self.channels_view(), self.default_view(), frame.header.vcid) {
                Some(cfg) => frame_fits(cfg, frame.data@.len() as int),
                None => true,
            },
        ensures
            match config_of(self.channels_view(), self.default_view(), frame.header.vcid) {
                None => r is None,
                Some(cfg) => {
                    let body = frame_body(cfg, frame.data@);
                    &&& (r is None <==> body.len() < 2)
                    &&& (r matches Some(m) ==> m.bytes() == body && m.first_header_spec()
                        == spec_first_header(body))
                },
            },
    {
        let cfg = match self.channel_config.get(&frame.header.vcid) {
            Some(c) => *c,
            None => match self.default_config {
                Some(c) => c,
                None => return None,
            },
        };
        let _len = frame.data.len();
        let mut trailer_len: usize = 0;
        if cfg.ocf {
            trailer_len = trailer_len + OCF_LEN;
        }
        if cfg.fec {
            trailer_len = trailer_len + FEC_LEN;
        }
        let izone = if cfg.fhec {
            cfg.izone_len + FHEC_LEN
        } else {
            cfg.izone_len
        };
        frame.mpdu(izone, trailer_len)
    }

    /// The next packet: the oldest decoded packet waiting, else the first packet of
    /// the first frame that completes one. `None` when the frames run out, or at a
    /// frame without configuration or MPDU, which is dropped.
    pub fn next(&mut self) -> (r: Option<Packet>)
        requires
            old(self).wf(),
            old(self).frames_fit(),
        ensures
            final(self).wf(),
            final(self).frames_fit(),
            final(self).default_view() == old(self).default_view(),
            final(self).channels_view() == old(self).channels_view(),
            r matches Some(p) ==> demuxed(p),
            old(self).ready_view().len() > 0 ==> {
                &&& r matches Some(p) && p.data@ == old(self).ready_view()[0]
                &&& final(self).ready_view() == old(self).ready_view().drop_first()
                &&& final(self).frames_view() == old(self).frames_view()
                &&& final(self).trackers_view() == old(self).trackers_view()
            },
            old(self).ready_view().len() == 0 ==> {
                let (t, fs, ps) = demux_run(
                    old(self).channels_view(),
                    old(self).default_view(),
                    old(self).trackers_view(),
                    old(self).frames_view(),
                );
                &&& final(self).trackers_view() == t
                &&& final(self).frames_view() == fs
                &&& ps.len() == 0 ==> r is None && final(self).ready_view() == ps
                &&& ps.len() > 0 ==> (r matches Some(p) && p.data@ == ps[0])
                    && final(self).ready_view() == ps.drop_first()
            },
    {
        // If there are packets ready to go, provide the oldest one
        let ghost rv = self.ready_view();
        match self.ready.pop_front() {
            Some(p) => {
                proof {
                    assert(self.ready_view() =~= rv.drop_first());
                }
                return Some(p);
            },
            None => {},
        }
        let ghost chans = self.channels_view();
        let ghost dflt = self.default_view();
        let ghost run = demux_run(chans, dflt, self.trackers_view(), self.frames_view());
        // No packet ready, we have to find one
        loop
            invariant
                self.wf(),
                self.frames_fit(),
                self.ready@.len() == 0,
                chans == self.channels_view(),
                dflt == self.default_view(),
                chans == old(self).channels_view(),
                dflt == old(self).default_view(),
                run == demux_run(chans, dflt, self.trackers_view(), self.frames_view()),
                old(self).ready_view().len() == 0,
                run == demux_run(
                    old(self).channels_view(),
                    old(self).default_view(),
                    old(self).trackers_view(),
                    old(self).frames_view(),
                ),
            decreases self.frames@.len(),
        {
            let ghost fs0 = self.frames@;
            let ghost tr0 = self.trackers_view();
            let frame = match self.frames.pop_front() {
                Some(f) => f,
                None => {
                    proof {
                        assert(self.ready_view() =~= Seq::<Seq<u8>>::empty());
                    }
                    return None;
                },
            };
            proof {
                assert(self.frames@ =~= fs0.drop_first());
                assert(frame == fs0[0]);
                assert(self.frames_fit()) by {
                    assert forall|i: int| 0 <= i < self.frames_view().len() implies match config_of(
                        self.channels_view(),
                        self.default_view(),
                        (#[trigger] self.frames_view()[i]).header.vcid,
                    ) {
                        Some(cfg) => frame_fits(cfg, self.frames_view()[i].data@.len() as int),
                        None => true,
                    } by {
                        assert(self.frames_view()[i] == fs0[i + 1]);
                    }
                }
            }
            let mpdu = match self.mpdu(&frame) {
                Some(m) => m,
                None => {
                    proof {
                        assert(self.ready_view() =~= Seq::<Seq<u8>>::empty());
                    }
                    return None;
                },
            };
            let ghost cfg = config_of(chans, dflt, frame.header.vcid).unwrap();
            let ghost body = frame_body(cfg, frame.data@);
            let vcid = frame.header.vcid;
            let mut tracker = match self.cache.remove(&vcid) {
                Some(t) => t,
                None => VcidTracker::new(vcid),
            };
            proof {
                assert(tracker.state() == state_of(tr0, vcid));
            }
            let ghost t_in = tracker.state();
            let ghost step = demux_frame(t_in, frame.integrity, frame.missing, body);
            let mut done_with_frame = false;
            match frame.integrity {
                Some(Integrity::Corrected) => {
                    tracker.rs_corrected = true;
                },
                Some(Integrity::Uncorrectable) | Some(Integrity::NotCorrected) => {
                    tracker.reset();
                    done_with_frame = true;
                },
                _ => {},
            }
            if !done_with_frame {
                // Frame error indicates there are frames missing _before_ this one -- this one is
                // still useable, so clear the existing cache and continue to process this frame.
                if frame.missing > 0 {
                    tracker.reset();
                }
                let payload = mpdu.payload();
                if tracker.sync {
                    // If we have sync, add the MPDU data to the current tracker
                    let ghost c = tracker.cache@;
                    tracker.cache.extend_from_slice(payload);
                    proof {
                        assert(tracker.cache@ =~= c + payload@);
                    }
                    extract_packets(&mut tracker, &mut self.ready);
                } else if !mpdu.has_header() || mpdu.is_fill() || mpdu.header_offset()
                    > payload.len() {
                    // No way to get sync without a valid packet header
                } else {
                    // We have valid packet header, so we have sync; init the cache
                    tracker.sync = true;
                    tracker.cache = slice_to_vec(
                        slice_subrange(payload, mpdu.header_offset(), payload.len()),
                    );
                    extract_packets(&mut tracker, &mut self.ready);
                }
            }
            proof {
                assert(tracker.state() == step.0);
                assert(self.ready_view() =~= step.1);
            }
            self.cache.insert(vcid, tracker);
            proof {
                assert(self.trackers_view() =~= tr0.insert(vcid, step.0));
            }
            if self.ready.len() > 0 {
                let ghost rv2 = self.ready_view();
                let p = self.ready.pop_front().unwrap();
                proof {
                    assert(self.ready_view() =~= rv2.drop_first());
                }
                return Some(p);
            }
        }
    }
}


/// A run never adds frames, and one that gives packets has taken at least one frame.
pub proof fn lemma_demux_run_consumes(
    channels: Map<Vcid, ChannelConfig>,
    default: Option<ChannelConfig>,
    trackers: Map<Vcid, TrackerState>,
    frames: Seq<Frame>,
)
    ensures
        demux_run(channels, default, trackers, frames).1.len() <= frames.len(),
        demux_run(channels, default, trackers, frames).2.len() > 0 ==> demux_run(
            channels,
            default,
            trackers,
            frames,
        ).1.len() < frames.len(),
    decreases frames.len(),
{
    if frames.len() > 0 {
        match frame_step(channels, default, trackers, frames[0]) {
            None => {},
            Some((t, ps)) => {
                if ps.len() == 0 {
                    lemma_demux_run_consumes(channels, default, t, frames.drop_first());
                }
            },
        }
    }
}

/// All packets the demultiplexer gives for `frames`, run after run, up to the first
/// run that gives none.
pub open spec fn demux_all(
    channels: Map<Vcid, ChannelConfig>,
    default: Option<ChannelConfig>,
    trackers: Map<Vcid, TrackerState>,
    frames: Seq<Frame>,
) -> Seq<Seq<u8>>
    decreases frames.len(),
{
    let (t, fs, ps) = demux_run(channels, default, trackers, frames);
    if ps.len() == 0 {
        seq![]
    } else {
        proof {
            lemma_demux_run_consumes(channels, default, trackers, frames);
        }
        ps + demux_all(channels, default, t, fs)
    }
}

/// The packets of `frames` under one framing configuration for every channel: what
/// [PacketDemux::next] gives until it gives nothing.
pub fn demux_packets(frames: Vec<Frame>, izone_len: usize, fhec: bool, ocf: bool, fec: bool) -> (r: Vec<Packet>)
    requires
        forall|i: int|
            0 <= i < frames@.len() ==> frame_fits(
                ChannelConfig { izone_len, fhec, fec, ocf },
                (#[trigger] frames@[i]).data@.len() as int,
            ),
    ensures
        ({
            let all = demux_all(
                Map::empty(),
                Some(ChannelConfig { izone_len, fhec, fec, ocf }),
                Map::empty(),
                frames@,
            );
            &&& r@.len() == all.len()
            &&& forall|i: int| 0 <= i < r@.len() ==> (#[trigger] r@[i]).data@ == all[i] && demuxed(r@[i])
        }),
{
    let ghost cfg = ChannelConfig { izone_len, fhec, fec, ocf };
    let ghost all = demux_all(Map::empty(), Some(cfg), Map::empty(), frames@);
    let mut d = PacketDemux::new(frames).with_defaults(izone_len, fhec, ocf, fec);
    let mut out: Vec<Packet> = Vec::new();
    proof {
        assert(d.ready_view() + demux_all(Map::empty(), Some(cfg), d.trackers_view(), d.frames_view()) =~= all);
        assert(out@.map_values(|p: Packet| p.data@) =~= Seq::<Seq<u8>>::empty());
    }
    loop
        invariant_except_break
            out@.map_values(|p: Packet| p.data@) + d.ready_view() + demux_all(
                Map::empty(),
                Some(cfg),
                d.trackers_view(),
                d.frames_view(),
            ) == all,
        invariant
            d.wf(),
            d.frames_fit(),
            d.default_view() == Some(cfg),
            d.channels_view() == Map::<Vcid, ChannelConfig>::empty(),
            forall|i: int| 0 <= i < out@.len() ==> demuxed(#[trigger] out@[i]),
        ensures
            out@.map_values(|p: Packet| p.data@) == all,
            forall|i: int| 0 <= i < out@.len() ==> demuxed(#[trigger] out@[i]),
        decreases d.frames_view().len(), d.ready_view().len(),
    {
        let ghost before = out@.map_values(|p: Packet| p.data@);
        let ghost rv = d.ready_view();
        let ghost fv = d.frames_view();
        let ghost tv = d.trackers_view();
        proof {
            lemma_demux_run_consumes(Map::empty(), Some(cfg), tv, fv);
        }
        match d.next() {
            Some(p) => {
                out.push(p);
                proof {
                    let now = out@.map_values(|p: Packet| p.data@);
                    assert(now =~= before.push(p.data@));
                    if rv.len() > 0 {
                        assert(rv =~= seq![p.data@] + d.ready_view());
                        assert(now + d.ready_view() =~= before + rv);
                    } else {
                        let (t, fs, ps) = demux_run(Map::empty(), Some(cfg), tv, fv);
                        assert(ps =~= seq![p.data@] + d.ready_view());
                        assert(demux_all(Map::empty(), Some(cfg), tv, fv) == ps + demux_all(
                            Map::empty(),
                            Some(cfg),
                            t,
                            fs,
                        ));
                        assert(now + d.ready_view() + demux_all(Map::empty(), Some(cfg), t, fs) =~= before + rv
                            + demux_all(Map::empty(), Some(cfg), tv, fv));
                    }
                }
            },
            None => {
                proof {
                    assert(rv.len() == 0);
                    assert(demux_all(Map::empty(), Some(cfg), tv, fv) =~= Seq::<Seq<u8>>::empty());
                    assert(before + rv + demux_all(Map::empty(), Some(cfg), tv, fv) =~= before);
                }
                break;
            },
        }
    }
    proof {
        assert forall|i: int| 0 <= i < out@.len() implies (#[trigger] out@[i]).data@ == all[i] by {
            assert(out@.map_values(|p: Packet| p.data@)[i] == out@[i].data@);
        }
    }
    out
}

/// A frame with frames missing before it cannot continue what its channel had
/// cached: what it does, the channel state after it and the packets it completes,
/// is the same whatever the state of its channel was, and is what it does to a
/// channel in the reset state.
pub proof fn lemma_gap_forgets_channel(
    t: TrackerState,
    u: TrackerState,
    integrity: Option<Integrity>,
    missing: u32,
    body: Seq<u8>,
)
    requires
        missing > 0,
    ensures
        demux_frame(t, integrity, missing, body) == demux_frame(u, integrity, missing, body),
        demux_frame(t, integrity, missing, body) == demux_frame(reset_state(), integrity, missing, body),
{
}

/// Through the demultiplexer, a frame with frames missing before it completes the
/// same packets, and leaves its channel in the same state, as it would on a
/// demultiplexer that never saw its channel; the other channels are left as they
/// were.
pub proof fn lemma_gap_frame_step(
    channels: Map<Vcid, ChannelConfig>,
    default: Option<ChannelConfig>,
    trackers: Map<Vcid, TrackerState>,
    f: Frame,
)
    requires
        f.missing > 0,
    ensures
        frame_step(channels, default, trackers, f) matches Some((t, ps)) ==> {
            &&& frame_step(channels, default, trackers.remove(f.header.vcid), f) matches Some((t2, ps2))
            &&& ps2 == ps
            &&& t2[f.header.vcid] == t[f.header.vcid]
            &&& forall|v: Vcid| v != f.header.vcid ==> (#[trigger] t.contains_key(v) == trackers.contains_key(v)
                && (trackers.contains_key(v) ==> t[v] == trackers[v]))
        },
{
    lemma_gap_forgets_channel(
        state_of(trackers, f.header.vcid),
        reset_state(),
        f.integrity,
        f.missing,
        frame_body(config_of(channels, default, f.header.vcid)->0, f.data@),
    );
}

/// What one frame does to its channel, in terms of bytes: a frame that failed its
/// check resets the channel and completes no packet; every packet completed is whole,
/// with a valid header and as long as it says; and where the channel is in sync
/// after the frame, the packets completed followed by the bytes cached are exactly
/// the cache before it followed by the frame's payload (a channel in sync with no
/// frames missing), or the payload from its first packet header on (otherwise):
/// no byte is lost, reordered or taken from before a gap.
pub proof fn lemma_demux_frame_bytes(t: TrackerState, integrity: Option<Integrity>, missing: u32, body: Seq<u8>)
    requires
        body.len() >= 2,
    ensures
        ({
            let (t2, ps) = demux_frame(t, integrity, missing, body);
            let payload = body.subrange(2, body.len() as int);
            let fhp = spec_first_header(body) as int;
            &&& (integrity == Some(Integrity::Uncorrectable) || integrity == Some(Integrity::NotCorrected))
                ==> t2 == reset_state() && ps.len() == 0
            &&& forall|i: int|
                0 <= i < ps.len() ==> {
                    &&& (#[trigger] ps[i]).len() >= 6
                    &&& valid_header(spec_primary_header(ps[i]))
                    &&& ps[i].len() == packet_len(spec_primary_header(ps[i]))
                }
            &&& t2.1 ==> ps.flatten() + t2.0 == if t.1 && missing == 0 {
                t.0 + payload
            } else {
                payload.subrange(fhp, payload.len() as int)
            }
        }),
{
    if !(integrity == Some(Integrity::Uncorrectable) || integrity == Some(Integrity::NotCorrected)) {
        let payload = body.subrange(2, body.len() as int);
        let fhp = spec_first_header(body) as int;
        if t.1 && missing == 0 {
            lemma_split_packets(t.0 + payload);
        } else if !(fhp == MPDU::NO_HEADER || fhp == MPDU::FILL || fhp > payload.len()) {
            lemma_split_packets(payload.subrange(fhp, payload.len() as int));
        }
    }
}

} // verus!
