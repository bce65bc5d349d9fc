//! Decoding of code blocks into frames with derandomization, integrity checking and
//! missing frame counts.
use vstd::prelude::*;
use std::collections::HashMap;
use vstd::slice::slice_to_vec;
use crate::error::Error;
use crate::framing::frame::{
    missing_frames, missing_frames_defined, spec_vcdu_header, Frame, VCDUHeader, Vcid,
};
use crate::framing::integrity::{DefaultReedSolomon, Integrity, IntegrityAlgorithm};
use crate::framing::pipeline::framing::frame_missing;
use crate::framing::pn::{spec_derandomize, DefaultDerandomizer, Derandomizer};
use crate::framing::synchronizer::views;
use crate::framing::reed_solomon::{lemma_rs_run_len, spec_messages, PARITY_LEN};
use crate::queue::to_deque;

verus! {

broadcast use vstd::std_specs::hash::group_hash_axioms;

/// Decodes CADU bytes into [Frame]s, with the default CCSDS derandomization and
/// Reed-Solomon where configured.
pub struct FrameDecoder<A> {
    num_threads: Option<u32>,
    derandomization: Option<DefaultDerandomizer>,
    integrity: Option<A>,
    integrity_noop: bool,
}

/// A [Frame] decoded from CADUs containing additional decode information regarding the
/// decoding process, e.g., missing frame counts and Reed-Solomon decoding information,
/// if available.
#[derive(Debug, Clone)]
pub struct DecodedFrame {
    pub frame: Frame,
    pub missing: u32,
    pub integrity: Option<Integrity>,
}

/// What decoding makes of one code block, before missing counts: `None` if it is
/// skipped for want of a header, else the header, integrity and frame bytes, or
/// the text of the integrity algorithm's error.
pub open spec fn decode_block<A: IntegrityAlgorithm>(
    pn: bool,
    alg: Option<A>,
    noop: bool,
    block: Seq<u8>,
) -> Option<Result<(VCDUHeader, Option<Integrity>, Seq<u8>), Seq<char>>> {
    let b = if pn {
        spec_derandomize(block)
    } else {
        block
    };
    if b.len() < 6 {
        None
    } else {
        let h = spec_vcdu_header(b);
        if h.vcid == VCDUHeader::FILL || noop {
            // No integrity checking on fill, however, check symbols are still removed
            let data = match alg {
                Some(a) => b.subrange(0, b.len() - a.parity_bytes()),
                None => b,
            };
            if data.len() < 6 {
                None
            } else {
                Some(Ok((h, None, data)))
            }
        } else {
            match alg {
                None => Some(Ok((h, None, b))),
                Some(a) => match a.outcome(h, b) {
                    Ok((i, d)) => Some(Ok((h, Some(i), d))),
                    Err(t) => Some(Err(t)),
                },
            }
        }
    }
}

/// Whether decoding one code block stays within bounds: check symbols can only be
/// removed from a block that holds them, and the algorithm must be able to run.
pub open spec fn block_defined<A: IntegrityAlgorithm>(
    pn: bool,
    alg: Option<A>,
    noop: bool,
    block: Seq<u8>,
) -> bool {
    let b = if pn {
        spec_derandomize(block)
    } else {
        block
    };
    b.len() >= 6 ==> match alg {
        None => true,
        Some(a) => {
            let h = spec_vcdu_header(b);
            if h.vcid == VCDUHeader::FILL || noop {
                0 <= a.parity_bytes() <= b.len()
            } else {
                a.can_perform(h, b.len() as int)
            }
        },
    }
}

/// The decoded frames of `blocks`, given the last counter seen for each channel:
/// the header, missing count, integrity and frame bytes of each, or the text of an
/// integrity error.
pub open spec fn decoded_frames<A: IntegrityAlgorithm>(
    pn: bool,
    alg: Option<A>,
    noop: bool,
    blocks: Seq<Seq<u8>>,
    last: Map<Vcid, u32>,
) -> Seq<Result<(VCDUHeader, int, Option<Integrity>, Seq<u8>), Seq<char>>>
    decreases blocks.len(),
{
    if blocks.len() == 0 {
        seq![]
    } else {
        let rest = blocks.drop_first();
        match decode_block(pn, alg, noop, blocks[0]) {
            None => decoded_frames(pn, alg, noop, rest, last),
            Some(Err(t)) => seq![Err(t)] + decoded_frames(pn, alg, noop, rest, last),
            Some(Ok((h, i, d))) => seq![Ok((h, frame_missing(last, h), i, d))] + decoded_frames(
                pn,
                alg,
                noop,
                rest,
                last.insert(h.vcid, h.counter),
            ),
        }
    }
}

/// Whether every block of `blocks` decodes within bounds and every missing count
/// can be computed without overflow.
pub open spec fn decode_defined<A: IntegrityAlgorithm>(
    pn: bool,
    alg: Option<A>,
    noop: bool,
    blocks: Seq<Seq<u8>>,
    last: Map<Vcid, u32>,
) -> bool
    decreases blocks.len(),
{
    if blocks.len() == 0 {
        true
    } else {
        let rest = blocks.drop_first();
        &&& block_defined(pn, alg, noop, blocks[0])
        &&& match decode_block(pn, alg, noop, blocks[0]) {
            Some(Ok((h, i, d))) => {
                &&& (h.vcid != VCDUHeader::FILL && last.contains_key(h.vcid))
                    ==> missing_frames_defined(h.counter, last[h.vcid])
                &&& decode_defined(pn, alg, noop, rest, last.insert(h.vcid, h.counter))
            },
            _ => decode_defined(pn, alg, noop, rest, last),
        }
    }
}

/// A decoded frame as the description of [decoded_frames] gives it.
pub open spec fn matches_decoded(
    r: Result<DecodedFrame, Error>,
    d: Result<(VCDUHeader, int, Option<Integrity>, Seq<u8>), Seq<char>>,
) -> bool {
    match d {
        Ok((h, m, i, data)) => r matches Ok(df) && {
            &&& df.frame.header == h
            &&& df.frame.data@ == data
            &&& df.frame.missing == 0
            &&& df.frame.integrity is None
            &&& df.missing == m
            &&& df.integrity == i
        },
        Err(t) => r matches Err(e) && (e matches Error::IntegrityAlgorithm(s) && s@ == t),
    }
}

impl FrameDecoder<DefaultReedSolomon> {
    /// A decoder with no derandomization and no integrity checking.
    pub fn new() -> (d: Self)
        ensures
            d.num_threads_view() is None,
            !d.pn_view(),
            d.integrity_view() is None,
            !d.noop_view(),
    {
        FrameDecoder {
            num_threads: None,
            derandomization: None,
            integrity: None,
            integrity_noop: false,
        }
    }
}

impl<A: IntegrityAlgorithm> FrameDecoder<A> {
    pub closed spec fn num_threads_view(&self) -> Option<u32> {
        self.num_threads
    }

    pub closed spec fn pn_view(&self) -> bool {
        self.derandomization is Some
    }

    pub closed spec fn integrity_view(&self) -> Option<A> {
        self.integrity
    }

    pub closed spec fn noop_view(&self) -> bool {
        self.integrity_noop
    }

    /// Apply derandomization using the provided algorithm. If not provided no derandomization is
    /// performed.
    pub fn with_derandomization(self, derandomizer: DefaultDerandomizer) -> (d: Self)
        ensures
            d.num_threads_view() == self.num_threads_view(),
            d.pn_view(),
            d.integrity_view() == self.integrity_view(),
            d.noop_view() == self.noop_view(),
    {
        let mut d = self;
        d.derandomization = Some(derandomizer);
        d
    }

    /// Perform integrity checking with the give algorithm. If not provided, no configuration
    /// checking is performed.
    pub fn with_integrity<B: IntegrityAlgorithm>(self, integrity: B) -> (d: FrameDecoder<B>)
        ensures
            d.num_threads_view() == self.num_threads_view(),
            d.pn_view() == self.pn_view(),
            d.integrity_view() == Some(integrity),
            d.noop_view() == self.noop_view(),
    {
        self.with_optional_integrity(Some(integrity))
    }

    /// The decoder with integrity algorithm `integrity`, or none.
    fn with_optional_integrity<B: IntegrityAlgorithm>(self, integrity: Option<B>) -> (d: FrameDecoder<B>)
        ensures
            d.num_threads_view() == self.num_threads_view(),
            d.pn_view() == self.pn_view(),
            d.integrity_view() == integrity,
            d.noop_view() == self.noop_view(),
    {
        FrameDecoder {
            num_threads: self.num_threads,
            derandomization: self.derandomization,
            integrity,
            integrity_noop: self.integrity_noop,
        }
    }

    /// Do not perform integrity check. Useful when there are parity bytes to remove but you do not
    /// want to perform the algorithm.
    pub fn with_integrity_noop(self) -> (d: Self)
        ensures
            d.num_threads_view() == self.num_threads_view(),
            d.pn_view() == self.pn_view(),
            d.integrity_view() == self.integrity_view(),
            d.noop_view(),
    {
        let mut d = self;
        d.integrity_noop = true;
        d
    }

    /// Use this number of threads for integrity checks. By default the number of threads is
    /// configured automatically and is typically the number of CPUs available on the system.
    pub fn with_integrity_threads(self, num: u32) -> (d: Self)
        ensures
            d.num_threads_view() == Some(num),
            d.pn_view() == self.pn_view(),
            d.integrity_view() == self.integrity_view(),
            d.noop_view() == self.noop_view(),
    {
        let mut d = self;
        d.num_threads = Some(num);
        d
    }

    /// Whether [FrameDecoder::decode] runs on `cadus` within bounds.
    pub open spec fn can_decode(&self, cadus: Seq<Seq<u8>>) -> bool {
        decode_defined(self.pn_view(), self.integrity_view(), self.noop_view(), cadus, Map::empty())
    }

    /// The frames [FrameDecoder::decode] makes of `cadus`.
    pub open spec fn decoded(&self, cadus: Seq<Seq<u8>>) -> Seq<
        Result<(VCDUHeader, int, Option<Integrity>, Seq<u8>), Seq<char>>,
    > {
        decoded_frames(self.pn_view(), self.integrity_view(), self.noop_view(), cadus, Map::empty())
    }

    /// Decode one code block, before missing counts.
    fn decode_one(&self, block: Vec<u8>) -> (r: Option<Result<(VCDUHeader, Option<Integrity>, Vec<u8>), Error>>)
        requires
            block_defined(self.pn_view(), self.integrity_view(), self.noop_view(), block@),
        ensures
            match decode_block(self.pn_view(), self.integrity_view(), self.noop_view(), block@) {
                None => r is None,
                Some(Ok((h, i, d))) => r matches Some(Ok((h2, i2, d2))) && h2 == h && i2 == i && d2@ == d,
                Some(Err(t)) => r matches Some(Err(e)) && (e matches Error::IntegrityAlgorithm(s) && s@ == t),
            },
    {
        // Have to do pn to get the correct header, even for fill
        let block = match self.derandomization {
            Some(pn) => pn.derandomize(block.as_slice()),
            None => block,
        };
        let hdr = match VCDUHeader::decode(block.as_slice()) {
            Some(h) => h,
            None => return None,
        };
        // No integrity checking on FILL, however, we still remove parity bytes
        if hdr.vcid == VCDUHeader::FILL || self.integrity_noop {
            let data = match &self.integrity {
                Some(alg) => slice_to_vec(alg.remove_parity(block.as_slice())),
                None => block,
            };
            if data.len() < VCDUHeader::LEN {
                return None;
            }
            Some(Ok((hdr, None, data)))
        } else {
            match &self.integrity {
                Some(alg) => match alg.perform(&hdr, block.as_slice()) {
                    Ok((status, data)) => Some(Ok((hdr, Some(status), data))),
                    Err(err) => Some(Err(err)),
                },
                None => Some(Ok((hdr, None, block))),
            }
        }
    }

    /// Performs the decode, including derandomization and integrity checks, if
    /// configured, and counts the frames missing before each frame of its channel.
    ///
    /// Integrity checks are not performed on VCDU fill frames (vcid=63), however, fill frames are
    /// not filtered and are produced. Blocks too short for a VCDU header are skipped.
    ///
    /// # Errors
    /// [Error] if integrity checking is used and fails.
    pub fn decode(self, cadus: Vec<Vec<u8>>) -> (frames: Vec<Result<DecodedFrame, Error>>)
        requires
            self.can_decode(views(cadus@)),
        ensures
            frames@.len() == self.decoded(views(cadus@)).len(),
            forall|i: int|
                0 <= i < frames@.len() ==> matches_decoded(
                    #[trigger] frames@[i],
                    self.decoded(views(cadus@))[i],
                ),
    {
        let ghost pn = self.pn_view();
        let ghost alg = self.integrity_view();
        let ghost noop = self.noop_view();
        let ghost all = views(cadus@);
        let ghost total = decoded_frames(pn, alg, noop, all, Map::empty());
        let mut queue = to_deque(cadus);
        // For tracking missing counts, which are per VCID
        let mut last: HashMap<Vcid, u32> = HashMap::new();
        let mut frames: Vec<Result<DecodedFrame, Error>> = Vec::new();
        let ghost mut done: Seq<Result<(VCDUHeader, int, Option<Integrity>, Seq<u8>), Seq<char>>> = seq![];
        proof {
            assert(done + total =~= total);
        }
        while queue.len() > 0
            invariant
                pn == self.pn_view(),
                alg == self.integrity_view(),
                noop == self.noop_view(),
                total == decoded_frames(pn, alg, noop, all, Map::empty()),
                decode_defined(pn, alg, noop, views(queue@), last@),
                done + decoded_frames(pn, alg, noop, views(queue@), last@) == total,
                frames@.len() == done.len(),
                forall|i: int| 0 <= i < frames@.len() ==> matches_decoded(#[trigger] frames@[i], done[i]),
            decreases queue@.len(),
        {
            let ghost q0 = views(queue@);
            let ghost last0 = last@;
            let block = queue.pop_front().unwrap();
            proof {
                assert(q0[0] == block@);
                assert(views(queue@) =~= q0.drop_first());
            }
            match self.decode_one(block) {
                None => {},
                Some(Err(err)) => {
                    let ghost t = decode_block(pn, alg, noop, q0[0])->Some_0->Err_0;
                    frames.push(Err(err));
                    proof {
                        assert(done.push(Err(t)) + decoded_frames(pn, alg, noop, views(queue@), last@)
                            =~= done + (seq![Err(t)] + decoded_frames(pn, alg, noop, views(queue@), last@)));
                        done = done.push(Err(t));
                    }
                },
                Some(Ok((hdr, integrity, data))) => {
                    // Only compute missing for non-fill frames
                    let mut missing: u32 = 0;
                    if hdr.vcid != VCDUHeader::FILL {
                        match last.get(&hdr.vcid) {
                            Some(l) => {
                                missing = missing_frames(hdr.counter, *l);
                            },
                            None => {},
                        }
                    }
                    last.insert(hdr.vcid, hdr.counter);
                    let ghost item = Ok::<(VCDUHeader, int, Option<Integrity>, Seq<u8>), Seq<char>>(
                        (hdr, frame_missing(last0, hdr), integrity, data@),
                    );
                    frames.push(
                        Ok(
                            DecodedFrame {
                                frame: Frame { header: hdr, missing: 0, integrity: None, data },
                                missing,
                                integrity,
                            },
                        ),
                    );
                    proof {
                        assert(done.push(item) + decoded_frames(pn, alg, noop, views(queue@), last@)
                            =~= done + (seq![item] + decoded_frames(pn, alg, noop, views(queue@), last@)));
                        done = done.push(item);
                    }
                },
            }
        }
        proof {
            assert(views(queue@) =~= Seq::<Seq<u8>>::empty());
            assert(done =~= total);
        }
        frames
    }
}

/// Decodes CADU bytes into [Frame]s.
///
/// `cadus` must provide data of the length required by the provided integrity algorithm.
/// For example, [DefaultReedSolomon] requires parity bytes that are not strictly part of the frame data
/// and will require a CADU length of `255 * rs_interleave` and will result in an output
/// [DecodedFrame] data length of `255 * rs_interleave - (rs_num_correctable * interleave)` bytes.
///
/// Also note, the input `cadus` must not include any attached sync marker bytes.
pub fn decode_frames<A: IntegrityAlgorithm>(
    cadus: Vec<Vec<u8>>,
    integrity: Option<A>,
    pn: Option<DefaultDerandomizer>,
) -> (frames: Vec<Result<DecodedFrame, Error>>)
    requires
        decode_defined(pn is Some, integrity, false, views(cadus@), Map::empty()),
    ensures
        ({
            let expected = decoded_frames(pn is Some, integrity, false, views(cadus@), Map::empty());
            &&& frames@.len() == expected.len()
            &&& forall|i: int|
                0 <= i < frames@.len() ==> matches_decoded(#[trigger] frames@[i], expected[i])
        }),
{
    let mut decoder = FrameDecoder::new();
    match pn {
        Some(pn) => {
            decoder = decoder.with_derandomization(pn);
        },
        None => {},
    }
    decoder.with_optional_integrity(integrity).decode(cadus)
}

/// Wraps [decode_frames] providing standard CCSDS Reed-Solomon(223/255)and the default CCSDS
/// derandomization appropriate for most spacecraft that use RS.
pub fn decode_frames_rs(cadus: Vec<Vec<u8>>, interleave: u8) -> (frames: Vec<Result<DecodedFrame, Error>>)
    requires
        decode_defined(
            true,
            Some(DefaultReedSolomon { interleave, parity_len: 32 }),
            false,
            views(cadus@),
            Map::empty(),
        ),
    ensures
        ({
            let expected = decoded_frames(
                true,
                Some(DefaultReedSolomon { interleave, parity_len: 32 }),
                false,
                views(cadus@),
                Map::empty(),
            );
            &&& frames@.len() == expected.len()
            &&& forall|i: int|
                0 <= i < frames@.len() ==> matches_decoded(#[trigger] frames@[i], expected[i])
        }),
{
    decode_frames(cadus, Some(DefaultReedSolomon::new(interleave)), Some(DefaultDerandomizer))
}


/// [decode_frames] decodes as the decoder it builds: a [FrameDecoder] that
/// derandomizes exactly when a derandomizer is given, checks with exactly the given
/// integrity algorithm and has no no-op integrity makes of `cadus` what
/// `decode_frames` makes of them, on the same inputs.
pub proof fn lemma_decode_frames_is_decoder<A: IntegrityAlgorithm>(
    d: FrameDecoder<A>,
    pn: Option<DefaultDerandomizer>,
    integrity: Option<A>,
    cadus: Seq<Seq<u8>>,
)
    requires
        d.pn_view() == pn is Some,
        d.integrity_view() == integrity,
        !d.noop_view(),
    ensures
        d.decoded(cadus) == decoded_frames(pn is Some, integrity, false, cadus, Map::empty()),
        d.can_decode(cadus) == decode_defined(pn is Some, integrity, false, cadus, Map::empty()),
{
}

/// [decode_frames_rs] decodes as [decode_frames] with the decoder's default
/// derandomizer and a Reed-Solomon check of the given interleave and the standard
/// parity length, which is what `DefaultReedSolomon::new(interleave)` makes.
pub proof fn lemma_decode_frames_rs_is_decode_frames(
    cadus: Seq<Seq<u8>>,
    interleave: u8,
    rs: DefaultReedSolomon,
    pn: Option<DefaultDerandomizer>,
)
    requires
        rs.interleave == interleave,
        rs.parity_len == PARITY_LEN,
        pn is Some,
    ensures
        decoded_frames(pn is Some, Some(rs), false, cadus, Map::empty()) == decoded_frames(
            true,
            Some(DefaultReedSolomon { interleave, parity_len: 32 }),
            false,
            cadus,
            Map::empty(),
        ),
        decode_defined(pn is Some, Some(rs), false, cadus, Map::empty()) == decode_defined(
            true,
            Some(DefaultReedSolomon { interleave, parity_len: 32 }),
            false,
            cadus,
            Map::empty(),
        ),
{
}

/// Where [decode_frames_rs] decodes code blocks of `255 * interleave` bytes, each
/// frame that passed the Reed-Solomon check or was corrected holds `223 *
/// interleave` bytes: its code block without the check symbols.
pub proof fn lemma_decode_frames_rs_frame_length(cadus: Seq<Seq<u8>>, interleave: u8, last: Map<Vcid, u32>)
    requires
        interleave > 0,
        forall|k: int| 0 <= k < cadus.len() ==> (#[trigger] cadus[k]).len() == 255 * interleave,
    ensures
        ({
            let out = decoded_frames(
                true,
                Some(DefaultReedSolomon { interleave, parity_len: 32 }),
                false,
                cadus,
                last,
            );
            forall|k: int|
                0 <= k < out.len() ==> (#[trigger] out[k] matches Ok((h, m, Some(integrity), d)) ==> (
                (integrity == Integrity::Passed || integrity == Integrity::Corrected) ==> d.len() == 223
                    * interleave))
        }),
    decreases cadus.len(),
{
    let rs = DefaultReedSolomon { interleave, parity_len: 32 };
    if cadus.len() > 0 {
        let rest = cadus.drop_first();
        let b = spec_derandomize(cadus[0]);
        assert(b.len() == 255 * interleave);
        let il = interleave as int;
        let zeros = Seq::new(b.len(), |k: int| 0u8);
        lemma_rs_run_len(true, b, spec_messages(b, il), il, 0, 0, 0, zeros);
        let next = match decode_block(true, Some(rs), false, cadus[0]) {
            Some(Ok((h, i, d))) => last.insert(h.vcid, h.counter),
            _ => last,
        };
        lemma_decode_frames_rs_frame_length(rest, interleave, next);
        let out = decoded_frames(true, Some(rs), false, cadus, last);
        let tail = decoded_frames(true, Some(rs), false, rest, next);
        assert forall|k: int|
            0 <= k < out.len() implies (#[trigger] out[k] matches Ok((h, m, Some(integrity), d)) ==> (
            (integrity == Integrity::Passed || integrity == Integrity::Corrected) ==> d.len() == 223
                * interleave)) by {
            if out.len() > tail.len() && k > 0 {
                assert(out[k] == tail[k - 1]);
            } else if out.len() == tail.len() {
                assert(out[k] == tail[k]);
            }
        }
    }
}

} // verus!
