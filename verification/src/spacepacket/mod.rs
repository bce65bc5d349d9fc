//! CCSDS space packets: primary headers, packets, packet groups and summaries.
pub mod error;
pub mod merge;
pub mod packet;
pub mod summary;

pub use error::Error;
pub use packet::{
    collect_groups, decode_packets, missing_packets, Apid, Packet, PacketGroup, PacketGroupIter,
    PrimaryHeader,
};
pub use summary::{ApidSummary, Summary};
