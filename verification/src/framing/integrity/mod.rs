//! Integrity checking algorithms run on whole code blocks by the frame decoder.
pub mod crc32;
pub mod reed_solomon;

pub use crc32::DefaultCrc32;
pub use reed_solomon::DefaultReedSolomon;

use vstd::prelude::*;
use crate::error::Error;
use crate::framing::frame::VCDUHeader;

verus! {

/// The dispositions of an integrity check.
#[derive(Clone, Copy, Debug, PartialEq, Eq, Structural)]
pub enum Integrity {
    NoErrors,
    HasErrors,
    /// Data did not require correction.
    Passed,
    /// Data was successfully corrected.
    Corrected,
    Uncorrectable,
    /// The algorithm choose to skip performing integrity checks
    Skipped,
}

/// An integrity check of the code blocks of frames.
pub trait IntegrityAlgorithm {
    /// Whether [IntegrityAlgorithm::perform] runs on a code block of `len` bytes of a
    /// frame with header `header`.
    spec fn can_perform(&self, header: VCDUHeader, len: int) -> bool;

    /// The outcome of [IntegrityAlgorithm::perform] on code block `cadu`: the
    /// integrity and the frame bytes, or the text of the error.
    spec fn outcome(&self, header: VCDUHeader, cadu: Seq<u8>) -> Result<(Integrity, Seq<u8>), Seq<char>>;

    /// Number of check symbol bytes that end a code block.
    spec fn parity_bytes(&self) -> int;

    /// Perform this integrity check.
    ///
    /// `cadu_dat` must already be derandomized and be of expected length for this
    /// algorithm. The algorithm will remove any parity bytes such that the returned data
    /// is just the frame bytes.
    fn perform(&self, header: &VCDUHeader, cadu_dat: &[u8]) -> (r: Result<(Integrity, Vec<u8>), Error>)
        requires
            self.can_perform(*header, cadu_dat@.len() as int),
        ensures
            match r {
                Ok((i, v)) => self.outcome(*header, cadu_dat@) == Ok::<(Integrity, Seq<u8>), Seq<char>>((i, v@)),
                Err(e) => self.outcome(*header, cadu_dat@) matches Err(t) && (e matches Error::IntegrityAlgorithm(s) && s@ == t),
            },
    ;

    /// The code block without its check symbols.
    fn remove_parity<'a>(&self, cadu_dat: &'a [u8]) -> (r: &'a [u8])
        requires
            0 <= self.parity_bytes() <= cadu_dat@.len(),
        ensures
            r@ == cadu_dat@.subrange(0, cadu_dat@.len() - self.parity_bytes()),
    ;
}

} // verus!
