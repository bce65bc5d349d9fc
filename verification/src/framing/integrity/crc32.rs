//! CRC-32 integrity check.
use vstd::prelude::*;
use vstd::slice::slice_to_vec;
use crate::error::Error;
use crate::framing::frame::VCDUHeader;
use crate::framing::integrity::{Integrity, IntegrityAlgorithm};

verus! {

/// CRC-32 integrity check of code blocks whose checksum starts at `offset`.
pub struct DefaultCrc32 {
    /// Offset to the start of the crc checksum bytes
    offset: usize,
}

impl DefaultCrc32 {
    /// Offset of the checksum bytes.
    pub closed spec fn offset_view(&self) -> usize {
        self.offset
    }

    pub fn new(offset: usize) -> (c: Self)
        ensures
            c.offset_view() == offset,
    {
        Self { offset }
    }
}

impl IntegrityAlgorithm for DefaultCrc32 {
    /// The check is not implemented: there is no code block it can be run on.
    open spec fn can_perform(&self, header: VCDUHeader, len: int) -> bool {
        false
    }

    open spec fn outcome(&self, header: VCDUHeader, cadu: Seq<u8>) -> Result<(Integrity, Seq<u8>), Seq<char>> {
        Ok((Integrity::Skipped, cadu))
    }

    /// The checksum is part of the frame: there are no check symbols to remove.
    open spec fn parity_bytes(&self) -> int {
        0
    }

    fn perform(&self, header: &VCDUHeader, cadu_dat: &[u8]) -> (r: Result<(Integrity, Vec<u8>), Error>) {
        Ok((Integrity::Skipped, slice_to_vec(cadu_dat)))
    }

    fn remove_parity<'a>(&self, cadu_dat: &'a [u8]) -> (r: &'a [u8]) {
        proof {
            assert(cadu_dat@.subrange(0, cadu_dat@.len() as int) =~= cadu_dat@);
        }
        cadu_dat
    }
}

} // verus!
