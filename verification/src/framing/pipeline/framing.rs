//! Frame decoding stage: VCDU headers and missing frame counts.
use vstd::prelude::*;
use std::collections::HashMap;
use crate::framing::frame::{
    missing_frames, missing_frames_defined, spec_missing_frames, spec_vcdu_header, Frame,
    VCDUHeader, Vcid,
};
use crate::framing::synchronizer::views;
use crate::queue::to_deque;

verus! {

broadcast use vstd::std_specs::hash::group_hash_axioms;

/// Frame counts missing before a frame with header `h`, given the last counter seen
/// for each channel; none for fill frames and for the first frame of a channel.
pub open spec fn frame_missing(last: Map<Vcid, u32>, h: VCDUHeader) -> int {
    if h.vcid != VCDUHeader::FILL && last.contains_key(h.vcid) {
        spec_missing_frames(h.counter, last[h.vcid])
    } else {
        0
    }
}

/// The headers and missing counts of the frames decoded from `cadus`, given the
/// last counter seen for each channel. Decoding ends at the first cadu too short
/// for a header.
pub open spec fn decode_run(cadus: Seq<Seq<u8>>, last: Map<Vcid, u32>) -> Seq<(VCDUHeader, int)>
    decreases cadus.len(),
{
    if cadus.len() == 0 || cadus[0].len() < 6 {
        seq![]
    } else {
        let h = spec_vcdu_header(cadus[0]);
        seq![(h, frame_missing(last, h))] + decode_run(
            cadus.drop_first(),
            last.insert(h.vcid, h.counter),
        )
    }
}

/// Whether every missing count [decode_run] takes can be computed without overflow.
pub open spec fn counters_defined(cadus: Seq<Seq<u8>>, last: Map<Vcid, u32>) -> bool
    decreases cadus.len(),
{
    if cadus.len() == 0 || cadus[0].len() < 6 {
        true
    } else {
        let h = spec_vcdu_header(cadus[0]);
        &&& (h.vcid != VCDUHeader::FILL && last.contains_key(h.vcid)) ==> missing_frames_defined(
            h.counter,
            last[h.vcid],
        )
        &&& counters_defined(cadus.drop_first(), last.insert(h.vcid, h.counter))
    }
}

/// Decode input cadu data into [Frame] data.
///
/// There is not much real work here other than keeping track of frame sequence couters to
/// facilitate [Frame::missing] count. Decoding ends at the first cadu too short for a
/// header.
pub fn frame_decoder(cadus: Vec<Vec<u8>>) -> (frames: Vec<Frame>)
    requires
        counters_defined(views(cadus@), Map::empty()),
    ensures
        frames@.len() == decode_run(views(cadus@), Map::empty()).len(),
        forall|i: int|
            0 <= i < frames@.len() ==> {
                &&& (#[trigger] frames@[i]).header == decode_run(views(cadus@), Map::empty())[i].0
                &&& frames@[i].missing == decode_run(views(cadus@), Map::empty())[i].1
                &&& frames@[i].integrity is None
                &&& frames@[i].data@ == views(cadus@)[i]
            },
{
    let ghost all = views(cadus@);
    let ghost run = decode_run(all, Map::empty());
    let mut queue = to_deque(cadus);
    let mut vcid_counters: HashMap<Vcid, u32> = HashMap::new();
    let mut frames: Vec<Frame> = Vec::new();
    loop
        invariant_except_break
            views(queue@) == all.subrange(frames@.len() as int, all.len() as int),
            counters_defined(views(queue@), vcid_counters@),
            run == run.subrange(0, frames@.len() as int) + decode_run(
                views(queue@),
                vcid_counters@,
            ),
        invariant
            frames@.len() <= all.len(),
            frames@.len() <= run.len(),
            run == decode_run(all, Map::empty()),
            forall|i: int|
                0 <= i < frames@.len() ==> {
                    &&& (#[trigger] frames@[i]).header == run[i].0
                    &&& frames@[i].missing == run[i].1
                    &&& frames@[i].integrity is None
                    &&& frames@[i].data@ == all[i]
                },
        ensures
            frames@.len() == run.len(),
            forall|i: int|
                0 <= i < frames@.len() ==> {
                    &&& (#[trigger] frames@[i]).header == run[i].0
                    &&& frames@[i].missing == run[i].1
                    &&& frames@[i].integrity is None
                    &&& frames@[i].data@ == all[i]
                },
        decreases queue@.len(),
    {
        let ghost q0 = views(queue@);
        let ghost last0 = vcid_counters@;
        let cadu = match queue.pop_front() {
            Some(c) => c,
            None => {
                proof {
                    assert(q0 =~= Seq::<Seq<u8>>::empty());
                    assert(decode_run(q0, last0) =~= Seq::<(VCDUHeader, int)>::empty());
                    assert(run =~= run.subrange(0, frames@.len() as int));
                }
                break;
            },
        };
        proof {
            assert(q0[0] == cadu@);
            assert(views(queue@) =~= q0.drop_first());
        }
        let header = match VCDUHeader::decode(cadu.as_slice()) {
            Some(h) => h,
            None => {
                proof {
                    assert(decode_run(q0, last0) =~= Seq::<(VCDUHeader, int)>::empty());
                    assert(run =~= run.subrange(0, frames@.len() as int));
                }
                break;
            },
        };
        let mut missing: u32 = 0;
        if header.vcid != VCDUHeader::FILL {
            match vcid_counters.get(&header.vcid) {
                Some(last) => {
                    missing = missing_frames(header.counter, *last);
                },
                None => {},
            }
        }
        vcid_counters.insert(header.vcid, header.counter);
        let ghost k = frames@.len() as int;
        frames.push(Frame { header, missing, integrity: None, data: cadu });
        proof {
            let rest = decode_run(views(queue@), vcid_counters@);
            assert(decode_run(q0, last0) == seq![(header, frame_missing(last0, header))] + rest);
            assert(run[k] == (header, frame_missing(last0, header))) by {
                assert(run[k] == (run.subrange(0, k) + decode_run(q0, last0))[k]);
            }
            assert(run.subrange(0, k + 1) =~= run.subrange(0, k).push(run[k]));
            assert(run =~= run.subrange(0, k + 1) + rest);
            assert(all[k] == q0[0]) by {
                assert(q0[0] == all.subrange(k, all.len() as int)[0]);
            }
            assert(views(queue@) =~= all.subrange(k + 1, all.len() as int));
        }
    }
    frames
}

} // verus!
