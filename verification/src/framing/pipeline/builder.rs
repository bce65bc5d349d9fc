//! A typical CCSDS standard decode process, from a byte stream to frames.
use vstd::prelude::*;
use crate::framing::frame::{missing_frames_defined, spec_vcdu_header, Frame, VCDUHeader, Vcid};
use std::collections::HashMap;
use crate::framing::pipeline::framing::{counters_defined, decode_run, frame_decoder};
use crate::framing::pipeline::reed_solomon::{reed_solomon, RsOpts};
use crate::framing::pipeline::synchronize::{can_sync, synced, synchronize, SyncOpts};
use crate::framing::pipeline::{derandomize, derandomized_all};
use crate::framing::synchronizer::{lemma_sync_blocks_len, spec_masks, spec_patterns, views, ASM};

verus! {

/// Builder class for constructing a typical CCSDS standard decode process.
#[derive(Debug)]
pub struct Pipeline {
    derandomize: bool,
    rs: Option<RsOpts>,
    block_length: usize,
}

impl Pipeline {
    pub closed spec fn derandomize_view(&self) -> bool {
        self.derandomize
    }

    pub closed spec fn rs_view(&self) -> Option<RsOpts> {
        self.rs
    }

    pub closed spec fn block_length_view(&self) -> usize {
        self.block_length
    }

    /// Create a new pipeline with the specified Cadu length.
    ///
    /// Cadu length should be the total length of a Cadu in bytes minus the length of the attached
    /// sync marker being used (typically 4, see [ASM]).
    pub fn new(cadu_length: usize) -> (p: Self)
        ensures
            p.derandomize_view(),
            p.rs_view() is None,
            p.block_length_view() == cadu_length,
    {
        Pipeline { derandomize: true, rs: None, block_length: cadu_length }
    }

    pub fn without_derandomization(self) -> (p: Self)
        ensures
            !p.derandomize_view(),
            p.rs_view() == self.rs_view(),
            p.block_length_view() == self.block_length_view(),
    {
        let mut p = self;
        p.derandomize = false;
        p
    }

    pub fn with_rs(self, opts: RsOpts) -> (p: Self)
        ensures
            p.derandomize_view() == self.derandomize_view(),
            p.rs_view() == Some(opts),
            p.block_length_view() == self.block_length_view(),
    {
        let mut p = self;
        p.rs = Some(opts);
        p
    }

    /// The blocks that synchronization finds in `reader`, derandomized if the
    /// pipeline derandomizes.
    pub open spec fn blocks(&self, reader: Seq<u8>) -> Seq<Seq<u8>> {
        let b = synced(reader, ASM@, self.block_length_view());
        if self.derandomize_view() {
            derandomized_all(b)
        } else {
            b
        }
    }

    /// Whether the pipeline runs on `reader` within the machine's limits, with
    /// frame counters it can compare, and frames that fit its Reed-Solomon options.
    pub open spec fn can_start(&self, reader: Seq<u8>) -> bool {
        let blocks = self.blocks(reader);
        let run = decode_run(blocks, Map::empty());
        &&& can_sync(reader, ASM@, self.block_length_view())
        &&& counters_defined(blocks, Map::empty())
        &&& self.rs_view() matches Some(opts) ==> forall|i: int|
            0 <= i < run.len() ==> opts.fits((#[trigger] run[i]).0.vcid, blocks[i].len() as int)
    }

    /// Decode the frames of `reader`: synchronize on the standard attached sync marker,
    /// derandomize if configured, decode frames, and apply Reed-Solomon if configured.
    pub fn start(&mut self, reader: Vec<u8>) -> (frames: Vec<Frame>)
        requires
            old(self).can_start(reader@),
        ensures
            *final(self) == *old(self),
            ({
                let blocks = old(self).blocks(reader@);
                let run = decode_run(blocks, Map::empty());
                &&& frames@.len() == run.len()
                &&& forall|i: int|
                    0 <= i < frames@.len() ==> {
                        &&& (#[trigger] frames@[i]).header == run[i].0
                        &&& frames@[i].missing == run[i].1
                        &&& match old(self).rs_view() {
                            None => frames@[i].integrity is None && frames@[i].data@ == blocks[i],
                            Some(opts) => {
                                let (integ, data) = opts.stage(run[i].0.vcid, blocks[i]);
                                frames@[i].integrity == Some(integ) && frames@[i].data@ == data
                            },
                        }
                    }
            }),
    {
        let opts = SyncOpts::new(self.block_length);
        let mut blocks = synchronize(reader, opts);
        if self.derandomize {
            blocks = derandomize(blocks);
        }
        let ghost bl = views(blocks@);
        let frames = frame_decoder(blocks);
        assert(frames@.len() == decode_run(bl, Map::empty()).len());
        let ghost run = decode_run(bl, Map::empty());
        match self.rs {
            Some(opts) => {
                proof {
                    assert forall|i: int| 0 <= i < frames@.len() implies opts.fits(
                        (#[trigger] frames@[i]).header.vcid,
                        frames@[i].data@.len() as int,
                    ) by {
                        assert(run[i].0 == frames@[i].header);
                        assert(bl[i] == frames@[i].data@);
                    }
                }
                let ghost fr = frames@;
                let out = reed_solomon(frames, opts);
                proof {
                    assert forall|i: int| 0 <= i < out@.len() implies {
                        let (integ, data) = opts.stage(run[i].0.vcid, bl[i]);
                        (#[trigger] out@[i]).integrity == Some(integ) && out@[i].data@ == data
                    } by {
                        assert(fr[i].data@ == bl[i]);
                        assert(fr[i].header == run[i].0);
                    }
                }
                out
            },
            None => {
                proof {
                    assert forall|i: int| 0 <= i < frames@.len() implies (
                    #[trigger] frames@[i]).data@ == bl[i] by {
                        assert(frames@[i].data@ == bl[i]);
                    }
                }
                frames
            },
        }
    }
}


broadcast use vstd::std_specs::hash::group_hash_axioms;

/// Whether the missing count of a frame with counter `cur` after counter `last` can
/// be computed, see [missing_frames_defined].
fn counters_comparable(cur: u32, last: u32) -> (r: bool)
    ensures
        r == missing_frames_defined(cur, last),
{
    cur == last || (last != u32::MAX && (cur == last + 1 || (last == VCDUHeader::COUNTER_MAX && cur == 0)
        || cur > last || last <= VCDUHeader::COUNTER_MAX))
}

/// Whether each frame of `cadus` has a missing count that can be computed and, with
/// Reed-Solomon options, fits them.
fn frames_checkable(cadus: &Vec<Vec<u8>>, rs: Option<RsOpts>) -> (r: bool)
    ensures
        r == ({
            let run = decode_run(views(cadus@), Map::empty());
            &&& counters_defined(views(cadus@), Map::empty())
            &&& rs matches Some(opts) ==> forall|i: int|
                0 <= i < run.len() ==> opts.fits((#[trigger] run[i]).0.vcid, views(cadus@)[i].len() as int)
        }),
{
    let ghost all = views(cadus@);
    let ghost run = decode_run(all, Map::empty());
    let mut last: HashMap<Vcid, u32> = HashMap::new();
    let ghost mut pre: Seq<(VCDUHeader, int)> = seq![];
    let mut i: usize = 0;
    proof {
        assert(all.subrange(0, all.len() as int) =~= all);
        assert(last@ =~= Map::<Vcid, u32>::empty());
        assert(pre + run =~= run);
    }
    while i < cadus.len()
        invariant
            all == views(cadus@),
            run == decode_run(all, Map::empty()),
            i <= all.len(),
            pre.len() == i,
            run == pre + decode_run(all.subrange(i as int, all.len() as int), last@),
            counters_defined(all, Map::empty()) == counters_defined(all.subrange(i as int, all.len() as int), last@),
            rs matches Some(opts) ==> forall|j: int|
                0 <= j < i ==> opts.fits((#[trigger] pre[j]).0.vcid, all[j].len() as int),
        decreases all.len() - i,
    {
        let ghost st = all.subrange(i as int, all.len() as int);
        let cadu = &cadus[i];
        proof {
            assert(st[0] == all[i as int]);
            assert(all[i as int] == cadus@[i as int]@);
        }
        let h = match VCDUHeader::decode(cadu.as_slice()) {
            Some(h) => h,
            None => {
                proof {
                    assert(decode_run(st, last@) =~= Seq::<(VCDUHeader, int)>::empty());
                    assert(run =~= pre);
                }
                return true;
            },
        };
        proof {
            assert(st.drop_first() =~= all.subrange(i + 1, all.len() as int));
            assert(decode_run(st, last@)[0].0 == h);
        }
        if h.vcid != VCDUHeader::FILL {
            match last.get(&h.vcid) {
                Some(l) => {
                    if !counters_comparable(h.counter, *l) {
                        return false;
                    }
                },
                None => {},
            }
        }
        match rs {
            Some(opts) => {
                if !opts.fits_on(h.vcid, cadu.len()) {
                    proof {
                        assert(run[i as int] == decode_run(st, last@)[0]);
                    }
                    return false;
                }
            },
            None => {},
        }
        proof {
            let step = decode_run(st, last@)[0];
            assert(decode_run(st, last@) =~= seq![step] + decode_run(
                all.subrange(i + 1, all.len() as int),
                last@.insert(h.vcid, h.counter),
            ));
            assert(pre.push(step) + decode_run(all.subrange(i + 1, all.len() as int), last@.insert(h.vcid, h.counter))
                =~= pre + decode_run(st, last@));
            pre = pre.push(step);
        }
        last.insert(h.vcid, h.counter);
        i = i + 1;
    }
    proof {
        assert(all.subrange(i as int, all.len() as int) =~= Seq::<Seq<u8>>::empty());
        assert(run =~= pre);
    }
    true
}

impl Pipeline {
    /// Whether [Pipeline::start] can run on `reader`, see [Pipeline::can_start]. For
    /// a reader of more bytes than an `i32` counts it answers `false`.
    pub fn can_start_on(&self, reader: &Vec<u8>) -> (r: bool)
        ensures
            r ==> self.can_start(reader@),
            reader@.len() + 2 < i32::MAX ==> r == self.can_start(reader@),
    {
        if reader.len() >= 2147483645 || self.block_length == usize::MAX {
            return false;
        }
        proof {
            lemma_sync_blocks_len(reader@, spec_patterns(ASM@), spec_masks(ASM@), 0, self.block_length as int);
            assert(ASM@.len() == 4);
        }
        let opts = SyncOpts::new(self.block_length);
        let mut blocks = synchronize(reader.clone(), opts);
        if self.derandomize {
            blocks = derandomize(blocks);
        }
        frames_checkable(&blocks, self.rs)
    }
}


/// Whether `frames` are what [frame_decoder] makes of `cadus`.
pub open spec fn frames_decoded(cadus: Seq<Seq<u8>>, frames: Seq<Frame>) -> bool {
    let run = decode_run(cadus, Map::empty());
    &&& frames.len() == run.len()
    &&& forall|i: int|
        0 <= i < frames.len() ==> {
            &&& (#[trigger] frames[i]).header == run[i].0
            &&& frames[i].missing == run[i].1
            &&& frames[i].integrity is None
            &&& frames[i].data@ == cadus[i]
        }
}

/// Whether `outs` are what the Reed-Solomon stage ([reed_solomon]) makes of `ins`
/// under `opts`.
pub open spec fn frames_staged(opts: RsOpts, ins: Seq<Frame>, outs: Seq<Frame>) -> bool {
    &&& outs.len() == ins.len()
    &&& forall|i: int|
        0 <= i < outs.len() ==> {
            let (integ, data) = opts.stage(ins[i].header.vcid, ins[i].data@);
            &&& (#[trigger] outs[i]).header == ins[i].header
            &&& outs[i].missing == ins[i].missing
            &&& outs[i].integrity == Some(integ)
            &&& outs[i].data@ == data
        }
}

/// Whether `frames` are what [Pipeline::start] makes of `reader`.
pub open spec fn frames_started(p: Pipeline, reader: Seq<u8>, frames: Seq<Frame>) -> bool {
    let blocks = p.blocks(reader);
    let run = decode_run(blocks, Map::empty());
    &&& frames.len() == run.len()
    &&& forall|i: int|
        0 <= i < frames.len() ==> {
            &&& (#[trigger] frames[i]).header == run[i].0
            &&& frames[i].missing == run[i].1
            &&& match p.rs_view() {
                None => frames[i].integrity is None && frames[i].data@ == blocks[i],
                Some(opts) => {
                    let (integ, data) = opts.stage(run[i].0.vcid, blocks[i]);
                    frames[i].integrity == Some(integ) && frames[i].data@ == data
                },
            }
        }
}

/// [Pipeline::start] is its stages composed: the blocks [synchronize] finds with the
/// standard marker and the pipeline's block length, [derandomize]d unless the
/// pipeline was built without derandomization (see [Pipeline::blocks]), decoded by
/// [frame_decoder], and passed through [reed_solomon] exactly when the pipeline has
/// Reed-Solomon options, give the frames that `start` gives.
pub proof fn lemma_start_composes(p: Pipeline, reader: Seq<u8>, decoded: Seq<Frame>, out: Seq<Frame>)
    requires
        frames_decoded(p.blocks(reader), decoded),
        match p.rs_view() {
            None => out == decoded,
            Some(opts) => frames_staged(opts, decoded, out),
        },
    ensures
        frames_started(p, reader, out),
{
    let blocks = p.blocks(reader);
    let run = decode_run(blocks, Map::empty());
    assert forall|i: int| 0 <= i < out.len() implies {
        &&& (#[trigger] out[i]).header == run[i].0
        &&& out[i].missing == run[i].1
        &&& match p.rs_view() {
            None => out[i].integrity is None && out[i].data@ == blocks[i],
            Some(opts) => {
                let (integ, data) = opts.stage(run[i].0.vcid, blocks[i]);
                out[i].integrity == Some(integ) && out[i].data@ == data
            },
        }
    } by {
        assert(decoded[i].header == run[i].0);
    }
}

} // verus!
