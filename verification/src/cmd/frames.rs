//! The decisions and statistics of the frame decoding tool.
use vstd::prelude::*;
use crate::framing::frame::{spec_vcdu_header, Frame, VCDUHeader, Vcid};
use crate::framing::pipeline::builder::Pipeline;
use crate::framing::pipeline::RsOpts;
use crate::framing::Integrity;
use vstd::slice::{slice_subrange, slice_to_vec};

verus! {

/// Size of a single block of Reed-Solomon parity for (223/255).
pub const RS_PARITY_LEN: usize = 32;

/// Frame statistics of one virtual channel, or of all of them.
#[derive(Default, Debug, Clone, Copy, PartialEq, Eq, Structural)]
pub struct Info {
    pub vcid: Vcid,
    pub total_frames: usize,
    pub total_bytes: usize,
    pub missing_frames: usize,
    pub corrected: usize,
    pub uncorrectable: usize,
    pub ok: usize,
    pub error: usize,
    pub not_performed: usize,
}

/// The statistics bucket of an integrity outcome.
pub enum Bucket {
    Good,
    Corrected,
    Uncorrectable,
    Failed,
    NotPerformed,
}

/// Which counter a frame's integrity adds to: frames without a check, or whose check
/// was skipped, count as not performed.
pub open spec fn bucket(i: Option<Integrity>) -> Bucket {
    match i {
        Some(Integrity::NoErrors) => Bucket::Good,
        Some(Integrity::Corrected) => Bucket::Corrected,
        Some(Integrity::Uncorrectable) | Some(Integrity::NotCorrected) => Bucket::Uncorrectable,
        Some(Integrity::Failed) => Bucket::Failed,
        Some(Integrity::Skipped) | None => Bucket::NotPerformed,
    }
}

/// `info` with one more frame of `len` bytes, `missing` frames missing before it and
/// integrity `i` counted.
pub open spec fn counted(info: Info, len: int, missing: int, i: Option<Integrity>) -> Info {
    let b = bucket(i);
    Info {
        vcid: info.vcid,
        total_frames: (info.total_frames + 1) as usize,
        total_bytes: (info.total_bytes + len) as usize,
        missing_frames: (info.missing_frames + missing) as usize,
        corrected: (info.corrected + if b is Corrected { 1int } else { 0 }) as usize,
        uncorrectable: (info.uncorrectable + if b is Uncorrectable { 1int } else { 0 }) as usize,
        ok: (info.ok + if b is Good { 1int } else { 0 }) as usize,
        error: (info.error + if b is Failed { 1int } else { 0 }) as usize,
        not_performed: (info.not_performed + if b is NotPerformed { 1int } else { 0 }) as usize,
    }
}

/// Whether counting one more frame into `info` stays within `usize`.
pub open spec fn can_count(info: Info, len: int, missing: int) -> bool {
    &&& info.total_frames + 1 <= usize::MAX
    &&& info.total_bytes + len <= usize::MAX
    &&& info.missing_frames + missing <= usize::MAX
    &&& info.corrected + 1 <= usize::MAX
    &&& info.uncorrectable + 1 <= usize::MAX
    &&& info.ok + 1 <= usize::MAX
    &&& info.error + 1 <= usize::MAX
    &&& info.not_performed + 1 <= usize::MAX
}

/// Count a frame into `info`.
pub fn count_frame(info: &mut Info, frame: &Frame)
    requires
        can_count(*old(info), frame.data@.len() as int, frame.missing as int),
    ensures
        *final(info) == counted(*old(info), frame.data@.len() as int, frame.missing as int, frame.integrity),
{
    info.total_frames = info.total_frames + 1;
    info.total_bytes = info.total_bytes + frame.data.len();
    info.missing_frames = info.missing_frames + frame.missing as usize;
    match frame.integrity {
        Some(Integrity::NoErrors) => {
            info.ok = info.ok + 1;
        },
        Some(Integrity::Corrected) => {
            info.corrected = info.corrected + 1;
        },
        Some(Integrity::Uncorrectable) | Some(Integrity::NotCorrected) => {
            info.uncorrectable = info.uncorrectable + 1;
        },
        Some(Integrity::Failed) => {
            info.error = info.error + 1;
        },
        Some(Integrity::Skipped) | None => {
            info.not_performed = info.not_performed + 1;
        },
    }
}

/// The statistics of a frame decode: over all frames, and per virtual channel,
/// ordered by channel.
#[derive(Debug, Clone)]
pub struct Summary {
    pub total: Info,
    pub vcids: Vec<Info>,
}

/// Whether the per-channel statistics are strictly ordered by channel.
pub open spec fn channels_sorted(vcids: Seq<Info>) -> bool {
    forall|i: int, j: int| 0 <= i < j < vcids.len() ==> (#[trigger] vcids[i]).vcid < (
    #[trigger] vcids[j]).vcid
}

/// The statistics of a channel that no frame was counted for yet.
pub open spec fn empty_info(vcid: Vcid) -> Info {
    Info {
        vcid,
        total_frames: 0,
        total_bytes: 0,
        missing_frames: 0,
        corrected: 0,
        uncorrectable: 0,
        ok: 0,
        error: 0,
        not_performed: 0,
    }
}

/// Whether `pos` is where channel `vcid` is, or goes, in statistics ordered by
/// channel.
pub open spec fn channel_pos(vcids: Seq<Info>, vcid: Vcid, pos: int) -> bool {
    &&& 0 <= pos <= vcids.len()
    &&& forall|i: int| 0 <= i < pos ==> (#[trigger] vcids[i]).vcid < vcid
    &&& forall|i: int| pos <= i < vcids.len() ==> (#[trigger] vcids[i]).vcid >= vcid
}

/// The per-channel statistics after counting a frame of channel `vcid` at position
/// `pos`: that channel's statistics updated, or new ones inserted.
pub open spec fn channels_counted(
    vcids: Seq<Info>,
    vcid: Vcid,
    pos: int,
    len: int,
    missing: int,
    i: Option<Integrity>,
) -> Seq<Info> {
    if pos < vcids.len() && vcids[pos].vcid == vcid {
        vcids.update(pos, counted(vcids[pos], len, missing, i))
    } else {
        vcids.insert(pos, counted(empty_info(vcid), len, missing, i))
    }
}

/// The `n`th counter of `i`: frames, bytes, missing frames, corrected, uncorrectable,
/// ok, failed, not performed.
pub open spec fn field(i: Info, n: int) -> int {
    if n == 0 {
        i.total_frames as int
    } else if n == 1 {
        i.total_bytes as int
    } else if n == 2 {
        i.missing_frames as int
    } else if n == 3 {
        i.corrected as int
    } else if n == 4 {
        i.uncorrectable as int
    } else if n == 5 {
        i.ok as int
    } else if n == 6 {
        i.error as int
    } else {
        i.not_performed as int
    }
}

/// The sum of the `n`th counter over the channels.
pub open spec fn channel_sum(vcids: Seq<Info>, n: int) -> int
    decreases vcids.len(),
{
    if vcids.len() == 0 {
        0
    } else {
        channel_sum(vcids.drop_last(), n) + field(vcids.last(), n)
    }
}

/// Whether each counter of the totals is the sum of that counter over the channels.
pub open spec fn totals_add_up(total: Info, vcids: Seq<Info>) -> bool {
    forall|n: int| 0 <= n < 8 ==> #[trigger] field(total, n) == channel_sum(vcids, n)
}

proof fn lemma_channel_sum_update(v: Seq<Info>, pos: int, x: Info, n: int)
    requires
        0 <= pos < v.len(),
    ensures
        channel_sum(v.update(pos, x), n) == channel_sum(v, n) - field(v[pos], n) + field(x, n),
    decreases v.len(),
{
    if pos < v.len() - 1 {
        assert(v.update(pos, x).drop_last() =~= v.drop_last().update(pos, x));
        lemma_channel_sum_update(v.drop_last(), pos, x, n);
    } else {
        assert(v.update(pos, x).drop_last() =~= v.drop_last());
    }
}

proof fn lemma_channel_sum_insert(v: Seq<Info>, pos: int, x: Info, n: int)
    requires
        0 <= pos <= v.len(),
    ensures
        channel_sum(v.insert(pos, x), n) == channel_sum(v, n) + field(x, n),
    decreases v.len(),
{
    if pos < v.len() {
        assert(v.insert(pos, x).drop_last() =~= v.drop_last().insert(pos, x));
        lemma_channel_sum_insert(v.drop_last(), pos, x, n);
    } else {
        assert(v.insert(pos, x).drop_last() =~= v);
    }
}

/// Counting one frame adds the same amount to a counter, whatever it held.
proof fn lemma_counted_delta(a: Info, b: Info, len: int, missing: int, i: Option<Integrity>, n: int)
    requires
        can_count(a, len, missing),
        can_count(b, len, missing),
        len >= 0,
        missing >= 0,
    ensures
        field(counted(a, len, missing, i), n) - field(a, n) == field(counted(b, len, missing, i), n) - field(b, n),
{
}

impl Summary {
    /// A summary of no frames.
    pub fn new() -> (s: Self)
        ensures
            s.total == empty_info(0),
            s.vcids@.len() == 0,
            totals_add_up(s.total, s.vcids@),
    {
        Summary {
            total: Info {
                vcid: 0,
                total_frames: 0,
                total_bytes: 0,
                missing_frames: 0,
                corrected: 0,
                uncorrectable: 0,
                ok: 0,
                error: 0,
                not_performed: 0,
            },
            vcids: Vec::new(),
        }
    }

    /// Count a frame, in the totals and in its channel.
    pub fn add(&mut self, frame: &Frame)
        requires
            channels_sorted(old(self).vcids@),
            can_count(old(self).total, frame.data@.len() as int, frame.missing as int),
            forall|i: int|
                0 <= i < old(self).vcids@.len() ==> can_count(
                    #[trigger] old(self).vcids@[i],
                    frame.data@.len() as int,
                    frame.missing as int,
                ),
        ensures
            channels_sorted(final(self).vcids@),
            final(self).total == counted(
                old(self).total,
                frame.data@.len() as int,
                frame.missing as int,
                frame.integrity,
            ),
            exists|pos: int|
                channel_pos(old(self).vcids@, frame.header.vcid, pos) && final(self).vcids@
                    == channels_counted(
                    old(self).vcids@,
                    frame.header.vcid,
                    pos,
                    frame.data@.len() as int,
                    frame.missing as int,
                    frame.integrity,
                ),
            totals_add_up(old(self).total, old(self).vcids@) ==> totals_add_up(final(self).total, final(self).vcids@),
    {
        let ghost old_total = self.total;
        let ghost old_vcids = self.vcids@;
        count_frame(&mut self.total, frame);
        let vcid = frame.header.vcid;
        // position of the channel, or where it goes
        let mut pos: usize = 0;
        while pos < self.vcids.len() && self.vcids[pos].vcid < vcid
            invariant
                pos <= self.vcids@.len(),
                forall|i: int| 0 <= i < pos ==> (#[trigger] self.vcids@[i]).vcid < vcid,
            decreases self.vcids@.len() - pos,
        {
            pos = pos + 1;
        }
        let ghost old_v = self.vcids@;
        proof {
            assert forall|i: int| pos <= i < old_v.len() implies (#[trigger] old_v[i]).vcid >= vcid by {
                if i > pos {
                    assert(old_v[pos as int].vcid < old_v[i].vcid);
                }
            }
            assert(channel_pos(old_v, vcid, pos as int));
        }
        if pos < self.vcids.len() && self.vcids[pos].vcid == vcid {
            let mut info = self.vcids[pos];
            count_frame(&mut info, frame);
            self.vcids.set(pos, info);
            proof {
                let nv = self.vcids@;
                assert forall|i: int, j: int| 0 <= i < j < nv.len() implies (#[trigger] nv[i]).vcid < (
                #[trigger] nv[j]).vcid by {
                    assert(old_v[i].vcid < old_v[j].vcid);
                }
            }
        } else {
            let mut info = Info {
                vcid,
                total_frames: 0,
                total_bytes: 0,
                missing_frames: 0,
                corrected: 0,
                uncorrectable: 0,
                ok: 0,
                error: 0,
                not_performed: 0,
            };
            count_frame(&mut info, frame);
            self.vcids.insert(pos, info);
            proof {
                let nv = self.vcids@;
                assert forall|i: int, j: int| 0 <= i < j < nv.len() implies (#[trigger] nv[i]).vcid < (
                #[trigger] nv[j]).vcid by {
                    if j > pos {
                        assert(nv[j] == old_v[j - 1]);
                    }
                    if i > pos {
                        assert(nv[i] == old_v[i - 1]);
                        assert(old_v[i - 1].vcid < old_v[j - 1].vcid);
                    }
                    if i < pos {
                        assert(nv[i] == old_v[i]);
                        if j < pos {
                            assert(nv[j] == old_v[j]);
                        }
                    }
                    if i == pos && j > pos {
                        assert(old_v[j - 1].vcid >= vcid);
                        assert(old_v[j - 1].vcid != vcid || j - 1 != pos);
                        if j - 1 > pos {
                            assert(old_v[pos as int].vcid < old_v[j - 1].vcid);
                        }
                    }
                }
            }
        }
        proof {
            if totals_add_up(old_total, old_vcids) {
                let len = frame.data@.len() as int;
                let missing = frame.missing as int;
                assert forall|n: int| 0 <= n < 8 implies #[trigger] field(self.total, n) == channel_sum(
                    self.vcids@,
                    n,
                ) by {
                    if pos < old_v.len() && old_v[pos as int].vcid == vcid {
                        lemma_channel_sum_update(
                            old_v,
                            pos as int,
                            counted(old_v[pos as int], len, missing, frame.integrity),
                            n,
                        );
                        lemma_counted_delta(old_total, old_v[pos as int], len, missing, frame.integrity, n);
                    } else {
                        lemma_channel_sum_insert(
                            old_v,
                            pos as int,
                            counted(empty_info(vcid), len, missing, frame.integrity),
                            n,
                        );
                        lemma_counted_delta(old_total, empty_info(vcid), len, missing, frame.integrity, n);
                    }
                }
            }
        }
    }
}

/// Whether the tool counts and writes a frame: fill frames only when asked to keep
/// them, and only frames of included channels (when channels are included) that are
/// not excluded.
pub fn frame_selected(frame: &Frame, keep_fill: bool, selected: &[Vcid], rejected: &[Vcid]) -> (r: bool)
    ensures
        r == ((frame.header.vcid != VCDUHeader::FILL || keep_fill) && (selected@.len() == 0
            || selected@.contains(frame.header.vcid)) && (rejected@.len() == 0 || !rejected@.contains(
            frame.header.vcid,
        ))),
{
    if frame.is_fill() && !keep_fill {
        return false;
    }
    if selected.len() > 0 && !slice_contains(selected, frame.header.vcid) {
        return false;
    }
    if rejected.len() > 0 && slice_contains(rejected, frame.header.vcid) {
        return false;
    }
    true
}

fn slice_contains(s: &[Vcid], v: Vcid) -> (r: bool)
    ensures
        r == s@.contains(v),
{
    let mut i: usize = 0;
    while i < s.len()
        invariant
            i <= s@.len(),
            forall|j: int| 0 <= j < i ==> s@[j] != v,
        decreases s@.len() - i,
    {
        if s[i] == v {
            return true;
        }
        i = i + 1;
    }
    false
}

/// Whether a counted frame is written: frames whose check failed are not.
pub fn frame_written(frame: &Frame) -> (r: bool)
    ensures
        r == !(frame.integrity == Some(Integrity::Uncorrectable) || frame.integrity == Some(
            Integrity::NotCorrected,
        ) || frame.integrity == Some(Integrity::Failed)),
{
    match frame.integrity {
        Some(Integrity::Uncorrectable) | Some(Integrity::NotCorrected) | Some(Integrity::Failed) => false,
        _ => true,
    }
}

/// The pipeline the tool decodes AOS frames of `length` bytes with: blocks hold the
/// Reed-Solomon parity of the interleave besides the frame; correction implies
/// detection; virtual fill and threads only where given.
pub fn aos_pipeline(
    length: usize,
    pn: bool,
    reed_solomon: Option<u8>,
    reed_solomon_detect: bool,
    reed_solomon_correct: bool,
    reed_solomon_virtualfill: usize,
    reed_solomon_threads: Option<usize>,
    reed_solomon_buffersize: usize,
) -> (p: Pipeline)
    requires
        length + RS_PARITY_LEN * 255 <= usize::MAX,
    ensures
        p.block_length_view() == length + RS_PARITY_LEN * match reed_solomon {
            Some(il) => il as int,
            None => 0,
        },
        p.derandomize_view() == pn,
        match reed_solomon {
            None => p.rs_view() is None,
            Some(il) => p.rs_view() matches Some(o) && {
                &&& o.interleave_view() == il
                &&& o.buffer_size_view() == reed_solomon_buffersize
                &&& o.correct_view() == reed_solomon_correct
                &&& o.detect_view() == (reed_solomon_detect || reed_solomon_correct)
                &&& o.virtual_fill_view() == reed_solomon_virtualfill
                &&& o.num_threads_view() == match reed_solomon_threads {
                    Some(n) => n,
                    None => 0,
                }
            },
        },
{
    let interleave: u8 = match reed_solomon {
        Some(il) => il,
        None => 0,
    };
    let sync_block_len = length + RS_PARITY_LEN * interleave as usize;
    let mut pipeline = Pipeline::new(sync_block_len);
    if !pn {
        pipeline = pipeline.without_derandomization();
    }
    match reed_solomon {
        Some(interleave) => {
            let mut opts = RsOpts::new(interleave).with_buffer_size(reed_solomon_buffersize).with_correction(
                reed_solomon_correct,
            ).with_detection(reed_solomon_detect || reed_solomon_correct);
            if reed_solomon_virtualfill != 0 {
                opts = opts.with_virtual_fill(reed_solomon_virtualfill);
            }
            match reed_solomon_threads {
                Some(num) => {
                    opts = opts.with_num_threads(num);
                },
                None => {},
            }
            pipeline = pipeline.with_rs(opts);
        },
        None => {},
    }
    pipeline
}

/// Whether the packet extraction tool demultiplexes a frame: fill frames and frames
/// that could not be corrected are left out.
pub fn demux_frame_wanted(frame: &Frame) -> (r: bool)
    ensures
        r == (frame.header.vcid != VCDUHeader::FILL && frame.integrity != Some(Integrity::Uncorrectable)),
{
    !frame.is_fill() && !(frame.integrity == Some(Integrity::Uncorrectable))
}


/// Whether the tool counts a frame, as [frame_selected] decides.
pub open spec fn frame_counted(f: Frame, keep_fill: bool, sel: Seq<Vcid>, rej: Seq<Vcid>) -> bool {
    (f.header.vcid != VCDUHeader::FILL || keep_fill) && (sel.len() == 0 || sel.contains(f.header.vcid))
        && (rej.len() == 0 || !rej.contains(f.header.vcid))
}

/// Whether a counted frame is written, as [frame_written] decides.
pub open spec fn frame_kept(f: Frame) -> bool {
    !(f.integrity == Some(Integrity::Uncorrectable) || f.integrity == Some(Integrity::NotCorrected)
        || f.integrity == Some(Integrity::Failed))
}

/// `init` with the frames of `frames` that the tool counts counted in order: all of
/// them, or those of channel `only` where it is given.
pub open spec fn tally(
    init: Info,
    frames: Seq<Frame>,
    keep_fill: bool,
    sel: Seq<Vcid>,
    rej: Seq<Vcid>,
    only: Option<Vcid>,
) -> Info
    decreases frames.len(),
{
    if frames.len() == 0 {
        init
    } else {
        let prev = tally(init, frames.drop_last(), keep_fill, sel, rej, only);
        let f = frames.last();
        if frame_counted(f, keep_fill, sel, rej) && (only is None || only == Some(f.header.vcid)) {
            counted(prev, f.data@.len() as int, f.missing as int, f.integrity)
        } else {
            prev
        }
    }
}

/// Whether the tool counts a frame of channel `v` among `frames`.
pub open spec fn has_channel(frames: Seq<Frame>, keep_fill: bool, sel: Seq<Vcid>, rej: Seq<Vcid>, v: Vcid) -> bool {
    exists|j: int|
        0 <= j < frames.len() && frame_counted(#[trigger] frames[j], keep_fill, sel, rej)
            && frames[j].header.vcid == v
}

/// Total bytes of the frames.
pub open spec fn frames_bytes(frames: Seq<Frame>) -> int
    decreases frames.len(),
{
    if frames.len() == 0 {
        0
    } else {
        frames_bytes(frames.drop_last()) + frames.last().data@.len()
    }
}

/// Total count of frames missing before the frames.
pub open spec fn frames_missing(frames: Seq<Frame>) -> int
    decreases frames.len(),
{
    if frames.len() == 0 {
        0
    } else {
        frames_missing(frames.drop_last()) + frames.last().missing
    }
}

/// The bytes the tool writes: the first `length` bytes of each frame it counts and
/// whose check did not fail, one after the other.
pub open spec fn written_bytes(frames: Seq<Frame>, length: int, keep_fill: bool, sel: Seq<Vcid>, rej: Seq<
    Vcid,
>) -> Seq<u8>
    decreases frames.len(),
{
    if frames.len() == 0 {
        seq![]
    } else {
        let prev = written_bytes(frames.drop_last(), length, keep_fill, sel, rej);
        let f = frames.last();
        if frame_counted(f, keep_fill, sel, rej) && frame_kept(f) {
            prev + f.data@.subrange(0, length)
        } else {
            prev
        }
    }
}

proof fn lemma_tally_push(
    init: Info,
    p: Seq<Frame>,
    f: Frame,
    keep_fill: bool,
    sel: Seq<Vcid>,
    rej: Seq<Vcid>,
    only: Option<Vcid>,
)
    ensures
        tally(init, p.push(f), keep_fill, sel, rej, only) == if frame_counted(f, keep_fill, sel, rej) && (
        only is None || only == Some(f.header.vcid)) {
            counted(tally(init, p, keep_fill, sel, rej, only), f.data@.len() as int, f.missing as int, f.integrity)
        } else {
            tally(init, p, keep_fill, sel, rej, only)
        },
        frames_bytes(p.push(f)) == frames_bytes(p) + f.data@.len(),
        frames_missing(p.push(f)) == frames_missing(p) + f.missing,
        written_bytes(p.push(f), 0, keep_fill, sel, rej) == written_bytes(p, 0, keep_fill, sel, rej) + if frame_counted(
            f,
            keep_fill,
            sel,
            rej,
        ) && frame_kept(f) {
            f.data@.subrange(0, 0)
        } else {
            seq![]
        },
{
    assert(p.push(f).drop_last() =~= p);
    assert(written_bytes(p, 0, keep_fill, sel, rej) + seq![] =~= written_bytes(p, 0, keep_fill, sel, rej));
}

proof fn lemma_written_push(p: Seq<Frame>, f: Frame, length: int, keep_fill: bool, sel: Seq<Vcid>, rej: Seq<Vcid>)
    ensures
        written_bytes(p.push(f), length, keep_fill, sel, rej) == if frame_counted(f, keep_fill, sel, rej)
            && frame_kept(f) {
            written_bytes(p, length, keep_fill, sel, rej) + f.data@.subrange(0, length)
        } else {
            written_bytes(p, length, keep_fill, sel, rej)
        },
{
    assert(p.push(f).drop_last() =~= p);
}

proof fn lemma_has_channel_push(p: Seq<Frame>, f: Frame, keep_fill: bool, sel: Seq<Vcid>, rej: Seq<Vcid>, w: Vcid)
    ensures
        has_channel(p.push(f), keep_fill, sel, rej, w) <==> (has_channel(p, keep_fill, sel, rej, w) || (
        frame_counted(f, keep_fill, sel, rej) && f.header.vcid == w)),
{
    let q = p.push(f);
    if has_channel(q, keep_fill, sel, rej, w) {
        let j = choose|j: int|
            0 <= j < q.len() && frame_counted(#[trigger] q[j], keep_fill, sel, rej) && q[j].header.vcid == w;
        if j < p.len() {
            assert(q[j] == p[j]);
        }
    }
    if has_channel(p, keep_fill, sel, rej, w) {
        let j = choose|j: int|
            0 <= j < p.len() && frame_counted(#[trigger] p[j], keep_fill, sel, rej) && p[j].header.vcid == w;
        assert(q[j] == p[j]);
    }
    if frame_counted(f, keep_fill, sel, rej) && f.header.vcid == w {
        assert(q[p.len() as int] == f);
    }
}

proof fn lemma_tally_bounds(
    init: Info,
    frames: Seq<Frame>,
    keep_fill: bool,
    sel: Seq<Vcid>,
    rej: Seq<Vcid>,
    only: Option<Vcid>,
)
    requires
        init.total_frames + frames.len() <= usize::MAX,
        init.total_bytes + frames_bytes(frames) <= usize::MAX,
        init.missing_frames + frames_missing(frames) <= usize::MAX,
        init.corrected + frames.len() <= usize::MAX,
        init.uncorrectable + frames.len() <= usize::MAX,
        init.ok + frames.len() <= usize::MAX,
        init.error + frames.len() <= usize::MAX,
        init.not_performed + frames.len() <= usize::MAX,
    ensures
        ({
            let t = tally(init, frames, keep_fill, sel, rej, only);
            &&& t.vcid == init.vcid
            &&& t.total_frames <= init.total_frames + frames.len()
            &&& t.total_bytes <= init.total_bytes + frames_bytes(frames)
            &&& t.missing_frames <= init.missing_frames + frames_missing(frames)
            &&& t.corrected <= init.corrected + frames.len()
            &&& t.uncorrectable <= init.uncorrectable + frames.len()
            &&& t.ok <= init.ok + frames.len()
            &&& t.error <= init.error + frames.len()
            &&& t.not_performed <= init.not_performed + frames.len()
        }),
    decreases frames.len(),
{
    if frames.len() > 0 {
        let p = frames.drop_last();
        assert(frames_bytes(p) <= frames_bytes(frames));
        assert(frames_missing(p) <= frames_missing(frames));
        lemma_tally_bounds(init, p, keep_fill, sel, rej, only);
    }
}

proof fn lemma_tally_absent(init: Info, frames: Seq<Frame>, keep_fill: bool, sel: Seq<Vcid>, rej: Seq<Vcid>, v: Vcid)
    requires
        !has_channel(frames, keep_fill, sel, rej, v),
    ensures
        tally(init, frames, keep_fill, sel, rej, Some(v)) == init,
    decreases frames.len(),
{
    if frames.len() > 0 {
        let p = frames.drop_last();
        assert(frames =~= p.push(frames.last()));
        lemma_has_channel_push(p, frames.last(), keep_fill, sel, rej, v);
        lemma_tally_absent(init, p, keep_fill, sel, rej, v);
    }
}

proof fn lemma_prefix_sums(frames: Seq<Frame>, i: int)
    requires
        0 <= i <= frames.len(),
    ensures
        frames_bytes(frames.subrange(0, i)) <= frames_bytes(frames),
        frames_missing(frames.subrange(0, i)) <= frames_missing(frames),
    decreases frames.len(),
{
    if i < frames.len() {
        let p = frames.drop_last();
        assert(p.subrange(0, i) =~= frames.subrange(0, i));
        lemma_prefix_sums(p, i);
    } else {
        assert(frames.subrange(0, i) =~= frames);
    }
}

/// The statistics and the output of decoding `frames`: the frames the tool counts
/// (see [frame_selected]) counted in the totals and in their channels, and of those
/// whose check did not fail the first `length` bytes, one after the other.
///
/// The channels of the summary are those of the counted frames, in order.
#[verifier::spinoff_prover]
#[verifier::rlimit(50)]
pub fn frame_aos(frames: Vec<Frame>, length: usize, keep_fill: bool, selected: &[Vcid], rejected: &[Vcid]) -> (r: (
    Summary,
    Vec<u8>,
))
    requires
        frames_bytes(frames@) <= usize::MAX,
        frames_missing(frames@) <= usize::MAX,
        forall|j: int|
            0 <= j < frames@.len() && frame_counted(#[trigger] frames@[j], keep_fill, selected@, rejected@)
                && frame_kept(frames@[j]) ==> length <= frames@[j].data@.len(),
    ensures
        channels_sorted(r.0.vcids@),
        totals_add_up(r.0.total, r.0.vcids@),
        r.0.total == tally(empty_info(0), frames@, keep_fill, selected@, rejected@, None),
        forall|k: int|
            0 <= k < r.0.vcids@.len() ==> #[trigger] r.0.vcids@[k] == tally(
                empty_info(r.0.vcids@[k].vcid),
                frames@,
                keep_fill,
                selected@,
                rejected@,
                Some(r.0.vcids@[k].vcid),
            ),
        forall|v: Vcid|
            has_channel(frames@, keep_fill, selected@, rejected@, v) <==> exists|k: int|
                0 <= k < r.0.vcids@.len() && #[trigger] r.0.vcids@[k].vcid == v,
        r.1@ == written_bytes(frames@, length as int, keep_fill, selected@, rejected@),
{
    let mut summary = Summary::new();
    let mut out: Vec<u8> = Vec::new();
    let mut i: usize = 0;
    proof {
        assert(frames@.subrange(0, 0) =~= Seq::<Frame>::empty());
    }
    while i < frames.len()
        invariant
            i <= frames@.len(),
            frames_bytes(frames@) <= usize::MAX,
            frames_missing(frames@) <= usize::MAX,
            forall|j: int|
                0 <= j < frames@.len() && frame_counted(#[trigger] frames@[j], keep_fill, selected@, rejected@)
                    && frame_kept(frames@[j]) ==> length <= frames@[j].data@.len(),
            channels_sorted(summary.vcids@),
            totals_add_up(summary.total, summary.vcids@),
            summary.total == tally(empty_info(0), frames@.subrange(0, i as int), keep_fill, selected@, rejected@, None),
            forall|k: int|
                0 <= k < summary.vcids@.len() ==> #[trigger] summary.vcids@[k] == tally(
                    empty_info(summary.vcids@[k].vcid),
                    frames@.subrange(0, i as int),
                    keep_fill,
                    selected@,
                    rejected@,
                    Some(summary.vcids@[k].vcid),
                ),
            forall|v: Vcid|
                has_channel(frames@.subrange(0, i as int), keep_fill, selected@, rejected@, v) <==> exists|k: int|
                    0 <= k < summary.vcids@.len() && #[trigger] summary.vcids@[k].vcid == v,
            out@ == written_bytes(frames@.subrange(0, i as int), length as int, keep_fill, selected@, rejected@),
        decreases frames@.len() - i,
    {
        let frame = &frames[i];
        let ghost p = frames@.subrange(0, i as int);
        let ghost f = frames@[i as int];
        proof {
            assert(frames@.subrange(0, i + 1) =~= p.push(f));
            lemma_tally_push(empty_info(0), p, f, keep_fill, selected@, rejected@, None);
            lemma_written_push(p, f, length as int, keep_fill, selected@, rejected@);
            lemma_prefix_sums(frames@, i + 1);
            assert forall|k: int| 0 <= k < summary.vcids@.len() implies #[trigger] tally(
                empty_info(summary.vcids@[k].vcid),
                p.push(f),
                keep_fill,
                selected@,
                rejected@,
                Some(summary.vcids@[k].vcid),
            ) == if frame_counted(f, keep_fill, selected@, rejected@) && summary.vcids@[k].vcid == f.header.vcid {
                counted(summary.vcids@[k], f.data@.len() as int, f.missing as int, f.integrity)
            } else {
                summary.vcids@[k]
            } by {
                lemma_tally_push(
                    empty_info(summary.vcids@[k].vcid),
                    p,
                    f,
                    keep_fill,
                    selected@,
                    rejected@,
                    Some(summary.vcids@[k].vcid),
                );
            }
        }
        if frame_selected(frame, keep_fill, selected, rejected) {
            proof {
                lemma_tally_bounds(empty_info(0), p, keep_fill, selected@, rejected@, None);
                assert forall|k: int| 0 <= k < summary.vcids@.len() implies can_count(
                    #[trigger] summary.vcids@[k],
                    f.data@.len() as int,
                    f.missing as int,
                ) by {
                    lemma_tally_bounds(
                        empty_info(summary.vcids@[k].vcid),
                        p,
                        keep_fill,
                        selected@,
                        rejected@,
                        Some(summary.vcids@[k].vcid),
                    );
                }
            }
            let ghost old_v = summary.vcids@;
            summary.add(frame);
            proof {
                let v = f.header.vcid;
                let len = f.data@.len() as int;
                let missing = f.missing as int;
                let pos = choose|pos: int|
                    channel_pos(old_v, v, pos) && summary.vcids@ == channels_counted(
                        old_v,
                        v,
                        pos,
                        len,
                        missing,
                        f.integrity,
                    );
                let nv = summary.vcids@;
                let q = p.push(f);
                if pos < old_v.len() && old_v[pos].vcid == v {
                    assert forall|k: int| 0 <= k < nv.len() implies #[trigger] nv[k] == tally(
                        empty_info(nv[k].vcid),
                        q,
                        keep_fill,
                        selected@,
                        rejected@,
                        Some(nv[k].vcid),
                    ) by {
                        if k != pos {
                            assert(nv[k] == old_v[k]);
                            if k < pos {
                                assert(old_v[k].vcid < v);
                            } else {
                                assert(old_v[pos].vcid < old_v[k].vcid);
                            }
                        }
                    }
                    assert forall|w: Vcid|
                        has_channel(q, keep_fill, selected@, rejected@, w) <==> exists|k: int|
                            0 <= k < nv.len() && #[trigger] nv[k].vcid == w by {
                        lemma_has_channel_push(p, f, keep_fill, selected@, rejected@, w);
                        if has_channel(q, keep_fill, selected@, rejected@, w) {
                            if w == v {
                                assert(nv[pos].vcid == w);
                            } else {
                                let k = choose|k: int| 0 <= k < old_v.len() && #[trigger] old_v[k].vcid == w;
                                assert(nv[k].vcid == w);
                            }
                        }
                        if exists|k: int| 0 <= k < nv.len() && #[trigger] nv[k].vcid == w {
                            let k = choose|k: int| 0 <= k < nv.len() && #[trigger] nv[k].vcid == w;
                            if k != pos {
                                assert(old_v[k].vcid == w);
                            }
                        }
                    }
                } else {
                    assert(!has_channel(p, keep_fill, selected@, rejected@, v)) by {
                        if has_channel(p, keep_fill, selected@, rejected@, v) {
                            let k = choose|k: int| 0 <= k < old_v.len() && #[trigger] old_v[k].vcid == v;
                            if k < pos {
                                assert(old_v[k].vcid < v);
                            } else if k > pos {
                                assert(old_v[pos].vcid < old_v[k].vcid);
                            }
                        }
                    }
                    lemma_tally_absent(empty_info(v), p, keep_fill, selected@, rejected@, v);
                    lemma_tally_push(empty_info(v), p, f, keep_fill, selected@, rejected@, Some(v));
                    assert forall|k: int| 0 <= k < nv.len() implies #[trigger] nv[k] == tally(
                        empty_info(nv[k].vcid),
                        q,
                        keep_fill,
                        selected@,
                        rejected@,
                        Some(nv[k].vcid),
                    ) by {
                        if k < pos {
                            assert(nv[k] == old_v[k]);
                            assert(old_v[k].vcid < v);
                        } else if k > pos {
                            assert(nv[k] == old_v[k - 1]);
                            assert(old_v[k - 1].vcid >= v);
                            assert(old_v[k - 1].vcid != v) by {
                                if k - 1 > pos {
                                    assert(old_v[pos].vcid < old_v[k - 1].vcid);
                                }
                            }
                        }
                    }
                    assert forall|w: Vcid|
                        has_channel(q, keep_fill, selected@, rejected@, w) <==> exists|k: int|
                            0 <= k < nv.len() && #[trigger] nv[k].vcid == w by {
                        lemma_has_channel_push(p, f, keep_fill, selected@, rejected@, w);
                        if has_channel(q, keep_fill, selected@, rejected@, w) {
                            if w == v {
                                assert(nv[pos].vcid == w);
                            } else {
                                let k = choose|k: int| 0 <= k < old_v.len() && #[trigger] old_v[k].vcid == w;
                                if k < pos {
                                    assert(nv[k].vcid == w);
                                } else {
                                    assert(nv[k + 1].vcid == w);
                                }
                            }
                        }
                        if exists|k: int| 0 <= k < nv.len() && #[trigger] nv[k].vcid == w {
                            let k = choose|k: int| 0 <= k < nv.len() && #[trigger] nv[k].vcid == w;
                            if k < pos {
                                assert(old_v[k].vcid == w);
                            } else if k > pos {
                                assert(old_v[k - 1].vcid == w);
                            }
                        }
                    }
                }
            }
            if frame_written(frame) {
                let mut chunk = slice_to_vec(slice_subrange(frame.data.as_slice(), 0, length));
                out.append(&mut chunk);
            }
        } else {
            proof {
                assert forall|w: Vcid|
                    has_channel(p.push(f), keep_fill, selected@, rejected@, w) <==> exists|k: int|
                        0 <= k < summary.vcids@.len() && #[trigger] summary.vcids@[k].vcid == w by {
                    lemma_has_channel_push(p, f, keep_fill, selected@, rejected@, w);
                }
            }
        }
        i = i + 1;
    }
    proof {
        assert(frames@.subrange(0, frames@.len() as int) =~= frames@);
        assert forall|v: Vcid|
            has_channel(frames@, keep_fill, selected@, rejected@, v) <==> exists|k: int|
                0 <= k < summary.vcids@.len() && #[trigger] summary.vcids@[k].vcid == v by {
            assert(has_channel(frames@.subrange(0, i as int), keep_fill, selected@, rejected@, v) <==> exists|k: int|
                0 <= k < summary.vcids@.len() && #[trigger] summary.vcids@[k].vcid == v);
        }
    }
    let ghost sv = summary.vcids@;
    let result = (summary, out);
    proof {
        assert forall|v: Vcid|
            has_channel(frames@, keep_fill, selected@, rejected@, v) <==> exists|k: int|
                0 <= k < result.0.vcids@.len() && #[trigger] result.0.vcids@[k].vcid == v by {
            if has_channel(frames@, keep_fill, selected@, rejected@, v) {
                let k = choose|k: int| 0 <= k < sv.len() && #[trigger] sv[k].vcid == v;
                assert(result.0.vcids@[k].vcid == v);
            }
            if exists|k: int| 0 <= k < result.0.vcids@.len() && #[trigger] result.0.vcids@[k].vcid == v {
                let k = choose|k: int| 0 <= k < result.0.vcids@.len() && #[trigger] result.0.vcids@[k].vcid == v;
                assert(sv[k].vcid == v);
            }
        }
    }
    result
}


/// The consecutive `length`-byte chunks of `data`; a shorter rest is left out.
pub open spec fn chunks(data: Seq<u8>, length: nat) -> Seq<Seq<u8>>
    decreases data.len(),
{
    if length == 0 || data.len() < length {
        seq![]
    } else {
        seq![data.subrange(0, length as int)] + chunks(data.subrange(length as int, data.len() as int), length)
    }
}

/// The frames of a file of frames `length` bytes long, one after the other; a
/// shorter rest is left out, and with `length` under a frame header there are none.
pub fn frames_of(data: &[u8], length: usize) -> (r: Vec<Frame>)
    ensures
        ({
            let cs = chunks(data@, length as nat);
            &&& length < VCDUHeader::LEN ==> r@.len() == 0
            &&& length >= VCDUHeader::LEN ==> r@.len() == cs.len()
            &&& forall|i: int|
                0 <= i < r@.len() ==> {
                    &&& (#[trigger] r@[i]).data@ == cs[i]
                    &&& r@[i].header == spec_vcdu_header(cs[i])
                    &&& r@[i].missing == 0
                    &&& r@[i].integrity is None
                }
        }),
{
    let mut r: Vec<Frame> = Vec::new();
    if length < VCDUHeader::LEN {
        return r;
    }
    let mut off: usize = 0;
    let ghost mut seen: Seq<Seq<u8>> = seq![];
    proof {
        assert(data@.subrange(0, data@.len() as int) =~= data@);
        assert(seen + chunks(data@, length as nat) =~= chunks(data@, length as nat));
    }
    while off <= data.len() && data.len() - off >= length
        invariant
            length >= VCDUHeader::LEN,
            off <= data@.len(),
            chunks(data@, length as nat) == seen + chunks(data@.subrange(off as int, data@.len() as int), length as nat),
            r@.len() == seen.len(),
            forall|i: int|
                0 <= i < r@.len() ==> {
                    &&& (#[trigger] r@[i]).data@ == seen[i]
                    &&& r@[i].header == spec_vcdu_header(seen[i])
                    &&& r@[i].missing == 0
                    &&& r@[i].integrity is None
                },
        decreases data@.len() - off,
    {
        let chunk = slice_to_vec(slice_subrange(data, off, off + length));
        let ghost rest = data@.subrange(off as int, data@.len() as int);
        proof {
            assert(rest.subrange(0, length as int) =~= chunk@);
            assert(rest.subrange(length as int, rest.len() as int) =~= data@.subrange(
                off + length,
                data@.len() as int,
            ));
            assert(chunks(rest, length as nat) == seq![chunk@] + chunks(
                data@.subrange(off + length, data@.len() as int),
                length as nat,
            ));
            assert(seen + (seq![chunk@] + chunks(data@.subrange(off + length, data@.len() as int), length as nat))
                =~= seen.push(chunk@) + chunks(data@.subrange(off + length, data@.len() as int), length as nat));
        }
        match Frame::decode(chunk) {
            Some(f) => {
                r.push(f);
            },
            None => {},
        }
        proof {
            seen = seen.push(chunk@);
        }
        off = off + length;
    }
    proof {
        let rest = data@.subrange(off as int, data@.len() as int);
        assert(chunks(rest, length as nat) =~= Seq::<Seq<u8>>::empty());
        assert(seen + chunks(rest, length as nat) =~= seen);
    }
    r
}

/// Counting a frame adds one frame, its bytes and the frames missing before it,
/// and one to exactly the counter of its integrity, in the statistics of its
/// channel as in the totals.
pub proof fn lemma_count_frame_adds(info: Info, len: int, missing: int, i: Option<Integrity>)
    requires
        0 <= len,
        0 <= missing,
        can_count(info, len, missing),
    ensures
        ({
            let c = counted(info, len, missing, i);
            &&& c.vcid == info.vcid
            &&& c.total_frames == info.total_frames + 1
            &&& c.total_bytes == info.total_bytes + len
            &&& c.missing_frames == info.missing_frames + missing
            &&& c.ok + c.corrected + c.uncorrectable + c.error + c.not_performed == info.ok + info.corrected
                + info.uncorrectable + info.error + info.not_performed + 1
            &&& i == Some(Integrity::NoErrors) ==> c.ok == info.ok + 1
            &&& i == Some(Integrity::Corrected) ==> c.corrected == info.corrected + 1
            &&& (i == Some(Integrity::Uncorrectable) || i == Some(Integrity::NotCorrected)) ==> c.uncorrectable
                == info.uncorrectable + 1
            &&& i == Some(Integrity::Failed) ==> c.error == info.error + 1
            &&& (i == Some(Integrity::Skipped) || i is None) ==> c.not_performed == info.not_performed + 1
        }),
{
}

/// Whether the tool counts frame `f` into the statistics selected by `only`.
pub open spec fn tallied(f: Frame, keep_fill: bool, sel: Seq<Vcid>, rej: Seq<Vcid>, only: Option<Vcid>) -> bool {
    frame_counted(f, keep_fill, sel, rej) && (only is None || only == Some(f.header.vcid))
}

/// The number of frames of `frames` that the tool counts, their bytes and the
/// frames missing before them, summed.
pub open spec fn tallied_sums(
    frames: Seq<Frame>,
    keep_fill: bool,
    sel: Seq<Vcid>,
    rej: Seq<Vcid>,
    only: Option<Vcid>,
) -> (int, int, int)
    decreases frames.len(),
{
    if frames.len() == 0 {
        (0, 0, 0)
    } else {
        let (n, b, m) = tallied_sums(frames.drop_last(), keep_fill, sel, rej, only);
        let f = frames.last();
        if tallied(f, keep_fill, sel, rej, only) {
            (n + 1, b + f.data@.len(), m + f.missing)
        } else {
            (n, b, m)
        }
    }
}

/// The frame statistics add up: the frames, bytes and missing frames that a tally
/// holds are those it started with plus the sums over the frames it counts.
pub proof fn lemma_tally_sums(
    init: Info,
    frames: Seq<Frame>,
    keep_fill: bool,
    sel: Seq<Vcid>,
    rej: Seq<Vcid>,
    only: Option<Vcid>,
)
    requires
        init.total_frames + frames.len() <= usize::MAX,
        init.total_bytes + frames_bytes(frames) <= usize::MAX,
        init.missing_frames + frames_missing(frames) <= usize::MAX,
        init.corrected + frames.len() <= usize::MAX,
        init.uncorrectable + frames.len() <= usize::MAX,
        init.ok + frames.len() <= usize::MAX,
        init.error + frames.len() <= usize::MAX,
        init.not_performed + frames.len() <= usize::MAX,
    ensures
        ({
            let t = tally(init, frames, keep_fill, sel, rej, only);
            let (n, b, m) = tallied_sums(frames, keep_fill, sel, rej, only);
            &&& t.total_frames == init.total_frames + n
            &&& t.total_bytes == init.total_bytes + b
            &&& t.missing_frames == init.missing_frames + m
        }),
    decreases frames.len(),
{
    if frames.len() > 0 {
        let p = frames.drop_last();
        assert(frames_bytes(p) <= frames_bytes(frames));
        assert(frames_missing(p) <= frames_missing(frames));
        lemma_tally_bounds(init, p, keep_fill, sel, rej, only);
        lemma_tally_sums(init, p, keep_fill, sel, rej, only);
    }
}

} // verus!
