use vstd::prelude::*;

verus! {

/// Errors decoding space packets.
#[derive(Debug, Clone)]
pub enum Error {
    /// Not enough bytes
    NotEnoughData {
        /// Number of bytes we got
        actual: usize,
        /// Minimum number of expected bytes
        minimum: usize,
    },
    /// Error handling or decoding a timecode
    Timecode(crate::timecode::Error),
}

} // verus!
