//! The stages of a typical CCSDS frame decode: synchronization, derandomization,
//! frame decoding, Reed-Solomon and packet demultiplexing.
pub mod builder;
pub mod framing;
pub mod packets;
mod reed_solomon;
pub mod reedsolomon;
pub mod synchronize;

pub use builder::Pipeline;
pub use framing::frame_decoder;
pub use packets::packet_decoder;
pub use reed_solomon::{reed_solomon, rs_fits, rs_stage, RsOpts};
pub use synchronize::{synchronize, SyncOpts};

use vstd::prelude::*;
use crate::framing::pn::{spec_derandomize, DefaultDerandomizer, Derandomizer};
use crate::framing::synchronizer::views;

verus! {

/// Each cadu with its pseudo-noise removed.
pub open spec fn derandomized_all(cadus: Seq<Seq<u8>>) -> Seq<Seq<u8>> {
    cadus.map_values(|c: Seq<u8>| spec_derandomize(c))
}

/// Perform derandomization on each input cadu using [DefaultDerandomizer].
pub fn derandomize(cadus: Vec<Vec<u8>>) -> (out: Vec<Vec<u8>>)
    ensures
        views(out@) == derandomized_all(views(cadus@)),
{
    let pn = DefaultDerandomizer::default();
    let mut out: Vec<Vec<u8>> = Vec::with_capacity(cadus.len());
    let mut i: usize = 0;
    while i < cadus.len()
        invariant
            i <= cadus@.len(),
            out@.len() == i,
            forall|j: int| 0 <= j < i ==> #[trigger] out@[j]@ == spec_derandomize(cadus@[j]@),
        decreases cadus@.len() - i,
    {
        out.push(pn.derandomize(cadus[i].as_slice()));
        i = i + 1;
    }
    proof {
        assert(views(out@) =~= derandomized_all(views(cadus@)));
    }
    out
}


/// Derandomizing the cadus twice gives back the cadus: each keeps its length and
/// order, and the pseudo-noise is applied and removed by the same XOR.
pub proof fn lemma_derandomize_all_twice(cadus: Seq<Seq<u8>>)
    ensures
        derandomized_all(derandomized_all(cadus)) == cadus,
        derandomized_all(cadus).len() == cadus.len(),
{
    assert forall|i: int| 0 <= i < cadus.len() implies #[trigger] derandomized_all(derandomized_all(cadus))[i]
        == cadus[i] by {
        crate::framing::pn::lemma_derandomize_involution(cadus[i]);
    }
    assert(derandomized_all(derandomized_all(cadus)) =~= cadus);
}

} // verus!
