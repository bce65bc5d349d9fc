//! CCSDS Reed-Solomon (223/255) as an [IntegrityAlgorithm].
use vstd::prelude::*;
use vstd::slice::{slice_subrange, slice_to_vec};
use crate::error::Error;
use crate::framing::frame::VCDUHeader;
use crate::framing::integrity::{Integrity, IntegrityAlgorithm};
use crate::framing::reed_solomon::{
    codeblock_error, codeblock_error_text, correct_codeblock, rs_run, spec_messages, N,
    PARITY_LEN,
};
use crate::framing::reed_solomon::Integrity as RsIntegrity;

verus! {

/// CCSDS documented Reed-Solomon (223/255) Forward Error Correction.
#[derive(Clone, Copy, Debug)]
pub struct DefaultReedSolomon {
    pub interleave: u8,
    pub parity_len: usize,
}

/// The disposition of this algorithm for an outcome of the RS run: a block that
/// needed no correction has passed.
pub open spec fn disposition(i: RsIntegrity) -> Integrity {
    match i {
        RsIntegrity::NoErrors => Integrity::Passed,
        RsIntegrity::Corrected => Integrity::Corrected,
        RsIntegrity::Uncorrectable => Integrity::Uncorrectable,
        RsIntegrity::NotCorrected => Integrity::HasErrors,
        RsIntegrity::Skipped => Integrity::Skipped,
        RsIntegrity::Failed => Integrity::Uncorrectable,
    }
}

impl DefaultReedSolomon {
    pub fn new(interleave: u8) -> (rs: Self)
        ensures
            rs.interleave == interleave,
            rs.parity_len == PARITY_LEN,
    {
        Self { interleave, parity_len: PARITY_LEN }
    }

    /// Whether `block` fills exactly `interleave` code words.
    pub fn can_correct(block: &[u8], interleave: u8) -> (r: bool)
        ensures
            r <==> block@.len() == 255 * interleave,
    {
        block.len() == N * interleave as usize
    }
}

impl IntegrityAlgorithm for DefaultReedSolomon {
    /// The algorithm runs with the standard parity length, on blocks that are
    /// either of the wrong length or made of at least one code word.
    open spec fn can_perform(&self, header: VCDUHeader, len: int) -> bool {
        &&& self.parity_len == PARITY_LEN
        &&& len == 255 * self.interleave ==> self.interleave > 0
    }

    /// An error for a block that is not `interleave` code words long; else each
    /// code word corrected, with the check symbols removed. Where a code word cannot
    /// be corrected the frame bytes are those of the block as it came.
    open spec fn outcome(&self, header: VCDUHeader, cadu: Seq<u8>) -> Result<(Integrity, Seq<u8>), Seq<char>> {
        let il = self.interleave as int;
        if cadu.len() != 255 * il {
            Err(codeblock_error_text(cadu.len() as usize, self.interleave))
        } else {
            let (i, d) = rs_run(
                true,
                cadu,
                spec_messages(cadu, il),
                il,
                0,
                0,
                0,
                Seq::new(cadu.len(), |k: int| 0u8),
            );
            if i == RsIntegrity::Uncorrectable {
                Ok((Integrity::Uncorrectable, cadu.subrange(0, cadu.len() - il * 32)))
            } else {
                Ok((disposition(i), d))
            }
        }
    }

    open spec fn parity_bytes(&self) -> int {
        self.interleave * self.parity_len
    }

    fn perform(&self, header: &VCDUHeader, cadu_dat: &[u8]) -> (r: Result<(Integrity, Vec<u8>), Error>) {
        if !DefaultReedSolomon::can_correct(cadu_dat, self.interleave) {
            return Err(
                Error::IntegrityAlgorithm(codeblock_error(cadu_dat.len(), self.interleave)),
            );
        }
        let (i, data) = correct_codeblock(slice_to_vec(cadu_dat), self.interleave, 0, true);
        if i == RsIntegrity::Uncorrectable {
            let n = cadu_dat.len();
            let frame = slice_subrange(cadu_dat, 0, n - self.interleave as usize * PARITY_LEN);
            return Ok((Integrity::Uncorrectable, slice_to_vec(frame)));
        }
        let integrity = match i {
            RsIntegrity::NoErrors => Integrity::Passed,
            RsIntegrity::Corrected => Integrity::Corrected,
            RsIntegrity::Uncorrectable => Integrity::Uncorrectable,
            RsIntegrity::NotCorrected => Integrity::HasErrors,
            RsIntegrity::Skipped => Integrity::Skipped,
            RsIntegrity::Failed => Integrity::Uncorrectable,
        };
        Ok((integrity, data))
    }

    fn remove_parity<'a>(&self, cadu_dat: &'a [u8]) -> (r: &'a [u8]) {
        let n = cadu_dat.len();
        assert(self.interleave * self.parity_len <= n);
        let parity = self.interleave as usize * self.parity_len;
        slice_subrange(cadu_dat, 0, n - parity)
    }
}

} // verus!
