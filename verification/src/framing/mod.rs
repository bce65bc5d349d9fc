//! Frame level decoding: sync marker search, pseudo-noise removal, Reed-Solomon,
//! VCDU headers, MPDUs and packet demultiplexing.
pub mod decoder;
pub mod frame;
pub mod integrity;
pub mod packets;
pub mod pipeline;
pub mod pn;
mod reed_solomon;
pub mod synchronizer;

pub use frame::{missing_frames, Frame, Scid, VCDUHeader, Vcid, MPDU};
pub use synchronizer::{read_synchronized_blocks, BlockIter, Loc, Synchronizer, ASM};
pub use packets::{PacketDemux, VcidTracker, FEC_LEN, OCF_LEN};
pub use pipeline::{
    derandomize, frame_decoder, packet_decoder, reed_solomon, synchronize, Pipeline, RsOpts, SyncOpts,
};
pub use pn::{DefaultDerandomizer, Derandomizer};
pub use reed_solomon::{
    deinterleave, deinterleaved, lemma_rs_frame_length, rs_outcome, rs_performable, rs_run, spec_messages, with_fill,
    write_message, DefaultReedSolomon, Integrity, ReedSolomon, N, PARITY_LEN,
};
pub use decoder::{decode_frames, decode_frames_rs, DecodedFrame, FrameDecoder};
pub use integrity::{DefaultCrc32, IntegrityAlgorithm};
