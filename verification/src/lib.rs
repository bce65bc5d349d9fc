//! Decoding of CCSDS space data link streams: synchronization of attached sync
//! markers, pseudo-noise removal, Reed-Solomon integrity checking, transfer frame
//! and MPDU decoding, space packet decoding and grouping, and time code fields.
pub mod bytes;
pub mod cmd;
pub mod error;
pub mod queue;
pub mod framing;
pub mod spacecraft_db;
pub mod spacepacket;
pub mod timecode;

pub use error::{Error, TimecodeError};
