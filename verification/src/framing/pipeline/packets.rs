//! Packet demultiplexing stage.
use vstd::prelude::*;
use crate::framing::frame::{Frame, Vcid};
use crate::framing::packets::{ChannelConfig, PacketDemux, TrackerState};

verus! {

/// Demultiplexes the packets of `frames`, which have an insert zone of
/// `izone_length` bytes and a trailer of `trailer_length` bytes: 4 bytes of
/// operational control field, 2 of frame error control, or both.
pub fn packet_decoder(frames: Vec<Frame>, izone_length: usize, trailer_length: usize) -> (d:
    PacketDemux)
    ensures
        d.wf(),
        d.frames_view() == frames@,
        d.trackers_view() == Map::<Vcid, TrackerState>::empty(),
        d.ready_view() == Seq::<Seq<u8>>::empty(),
        d.channels_view() == Map::<Vcid, ChannelConfig>::empty(),
        d.default_view() == Some(
            ChannelConfig {
                izone_len: izone_length,
                fhec: false,
                ocf: trailer_length == 4 || trailer_length == 6,
                fec: trailer_length == 2 || trailer_length == 6,
            },
        ),
{
    let ocf = trailer_length == 4 || trailer_length == 6;
    let fec = trailer_length == 2 || trailer_length == 6;
    PacketDemux::new(frames).with_defaults(izone_length, false, ocf, fec)
}

} // verus!
