//! Reed-Solomon stage.
use vstd::prelude::*;
use crate::framing::frame::Frame;
use crate::framing::reed_solomon::{
    rs_outcome, rs_performable, DefaultReedSolomon, Integrity, ReedSolomon,
};

verus! {

/// Configuration options for the ReedSolomon supported by [super::Pipeline].
#[derive(Debug, Clone, Copy)]
pub struct RsOpts {
    interleave: u8,
    virtual_fill: usize,
    num_threads: usize,
    buffer_size: usize,
    detect: bool,
    correct: bool,
}

impl RsOpts {
    pub closed spec fn interleave_view(&self) -> u8 {
        self.interleave
    }

    pub closed spec fn virtual_fill_view(&self) -> usize {
        self.virtual_fill
    }

    pub closed spec fn num_threads_view(&self) -> usize {
        self.num_threads
    }

    pub closed spec fn buffer_size_view(&self) -> usize {
        self.buffer_size
    }

    pub closed spec fn detect_view(&self) -> bool {
        self.detect
    }

    pub closed spec fn correct_view(&self) -> bool {
        self.correct
    }

    /// Options with the given interleave, no virtual fill, detection and correction,
    /// threads chosen automatically and room for 50 frames in flight.
    pub fn new(interleave: u8) -> (o: Self)
        ensures
            o.interleave_view() == interleave,
            o.virtual_fill_view() == 0,
            o.num_threads_view() == 0,
            o.buffer_size_view() == 50,
            o.detect_view(),
            o.correct_view(),
    {
        RsOpts {
            interleave,
            virtual_fill: 0,
            num_threads: 0,
            detect: true,
            correct: true,
            buffer_size: 50,
        }
    }

    /// See [DefaultReedSolomon::with_virtual_fill]
    pub fn with_virtual_fill(self, virtual_fill: usize) -> (o: Self)
        ensures
            o.interleave_view() == self.interleave_view(),
            o.virtual_fill_view() == virtual_fill,
            o.num_threads_view() == self.num_threads_view(),
            o.buffer_size_view() == self.buffer_size_view(),
            o.detect_view() == self.detect_view(),
            o.correct_view() == self.correct_view(),
    {
        let mut o = self;
        o.virtual_fill = virtual_fill;
        o
    }

    /// Size of the thread pool used to perform the RS compuataion. By default the value will be
    /// chosen automatically.
    pub fn with_num_threads(self, num_threads: usize) -> (o: Self)
        ensures
            o.interleave_view() == self.interleave_view(),
            o.virtual_fill_view() == self.virtual_fill_view(),
            o.num_threads_view() == num_threads,
            o.buffer_size_view() == self.buffer_size_view(),
            o.detect_view() == self.detect_view(),
            o.correct_view() == self.correct_view(),
    {
        let mut o = self;
        o.num_threads = num_threads;
        o
    }

    /// See [DefaultReedSolomon::with_correction]
    pub fn with_correction(self, enabled: bool) -> (o: Self)
        ensures
            o.interleave_view() == self.interleave_view(),
            o.virtual_fill_view() == self.virtual_fill_view(),
            o.num_threads_view() == self.num_threads_view(),
            o.buffer_size_view() == self.buffer_size_view(),
            o.detect_view() == self.detect_view(),
            o.correct_view() == enabled,
    {
        let mut o = self;
        o.correct = enabled;
        o
    }

    /// See [DefaultReedSolomon::with_detection]
    pub fn with_detection(self, enabled: bool) -> (o: Self)
        ensures
            o.interleave_view() == self.interleave_view(),
            o.virtual_fill_view() == self.virtual_fill_view(),
            o.num_threads_view() == self.num_threads_view(),
            o.buffer_size_view() == self.buffer_size_view(),
            o.detect_view() == enabled,
            o.correct_view() == self.correct_view(),
    {
        let mut o = self;
        o.detect = enabled;
        o
    }

    /// Set the allowable number of in-flight frames waiting to enter the thread pool.
    pub fn with_buffer_size(self, size: usize) -> (o: Self)
        ensures
            o.interleave_view() == self.interleave_view(),
            o.virtual_fill_view() == self.virtual_fill_view(),
            o.num_threads_view() == self.num_threads_view(),
            o.buffer_size_view() == size,
            o.detect_view() == self.detect_view(),
            o.correct_view() == self.correct_view(),
    {
        let mut o = self;
        o.buffer_size = size;
        o
    }

    /// Whether the algorithm these options configure runs on a frame of `len`
    /// bytes of virtual channel `vcid`.
    pub open spec fn fits(&self, vcid: u16, len: int) -> bool {
        rs_fits(self.interleave_view(), self.virtual_fill_view(), self.detect_view(), vcid, len)
    }

    /// Whether the algorithm these options configure runs on a frame of `len` bytes
    /// of virtual channel `vcid`, see [RsOpts::fits].
    pub fn fits_on(&self, vcid: u16, len: usize) -> (r: bool)
        ensures
            r == self.fits(vcid, len as int),
    {
        let il = self.interleave as usize;
        if len > usize::MAX - self.virtual_fill {
            return false;
        }
        let total = len + self.virtual_fill;
        if total != 255 * il {
            return false;
        }
        self.virtual_fill <= 223 * il && (il != 0 || vcid == crate::framing::frame::VCDUHeader::FILL
            || !self.detect)
    }

    /// The integrity and data of a frame of virtual channel `vcid` with bytes `data`
    /// after the stage.
    pub open spec fn stage(&self, vcid: u16, data: Seq<u8>) -> (Integrity, Seq<u8>) {
        rs_stage(
            self.interleave_view(),
            self.virtual_fill_view(),
            self.detect_view(),
            self.correct_view(),
            vcid,
            data,
        )
    }
}

/// Whether the algorithm with interleave `il`, `vf` bytes of virtual fill and
/// detection as given runs on a frame of `len` bytes of virtual channel `vcid`.
pub open spec fn rs_fits(il: u8, vf: usize, detect: bool, vcid: u16, len: int) -> bool {
    &&& len + vf == 255 * il
    &&& rs_performable(il as int, vf as int, detect, vcid, len)
}

/// The integrity and data of a frame of virtual channel `vcid` with bytes `data`
/// after the stage: the data loses its check symbols where the integrity is
/// [Integrity::NoErrors], [Integrity::Corrected] or [Integrity::Skipped] (also
/// when detection is off), and is kept as it is otherwise.
pub open spec fn rs_stage(
    il: u8,
    vf: usize,
    detect: bool,
    correct: bool,
    vcid: u16,
    data: Seq<u8>,
) -> (Integrity, Seq<u8>) {
    let (i, d) = rs_outcome(il as int, vf as int, detect, correct, vcid, data).unwrap();
    (i, if i == Integrity::NoErrors || i == Integrity::Corrected || i == Integrity::Skipped {
        d
    } else {
        data
    })
}

/// Perform ReedSolomon error correction using [DefaultReedSolomon] on each frame,
/// in order.
///
/// # Arguments
/// * `frames` frames as returned by [frame_decoder](super::frame_decoder).
/// * `opts` Configuration for the ReedSolomon algorithm. For details see the associated
/// configuration functions on [DefaultReedSolomon].
pub fn reed_solomon(frames: Vec<Frame>, opts: RsOpts) -> (out: Vec<Frame>)
    requires
        forall|i: int|
            0 <= i < frames@.len() ==> opts.fits(
                (#[trigger] frames@[i]).header.vcid,
                frames@[i].data@.len() as int,
            ),
    ensures
        out@.len() == frames@.len(),
        forall|i: int|
            0 <= i < out@.len() ==> {
                let (integ, data) = opts.stage(frames@[i].header.vcid, frames@[i].data@);
                &&& (#[trigger] out@[i]).header == frames@[i].header
                &&& out@[i].missing == frames@[i].missing
                &&& out@[i].integrity == Some(integ)
                &&& out@[i].data@ == data
            },
{
    let rs = DefaultReedSolomon::new(opts.interleave).with_detection(opts.detect).with_correction(
        opts.correct,
    ).with_virtual_fill(opts.virtual_fill);
    let mut out: Vec<Frame> = Vec::with_capacity(frames.len());
    let mut i: usize = 0;
    while i < frames.len()
        invariant
            i <= frames@.len(),
            out@.len() == i,
            rs.wf(),
            rs.interleave_view() == opts.interleave_view(),
            rs.virtual_fill_view() == opts.virtual_fill_view(),
            rs.detect_view() == opts.detect_view(),
            rs.correct_view() == opts.correct_view(),
            forall|k: int|
                0 <= k < frames@.len() ==> opts.fits(
                    (#[trigger] frames@[k]).header.vcid,
                    frames@[k].data@.len() as int,
                ),
            forall|k: int|
                0 <= k < i ==> {
                    let (integ, data) = opts.stage(frames@[k].header.vcid, frames@[k].data@);
                    &&& (#[trigger] out@[k]).header == frames@[k].header
                    &&& out@[k].missing == frames@[k].missing
                    &&& out@[k].integrity == Some(integ)
                    &&& out@[k].data@ == data
                },
        decreases frames@.len() - i,
    {
        let frame = &frames[i];
        let data = match rs.perform(&frame.header, frame.data.as_slice()) {
            Ok((integrity, data)) => {
                // data does not include the check symbols
                if integrity == Integrity::NoErrors || integrity == Integrity::Corrected || integrity
                    == Integrity::Skipped {
                    (integrity, data)
                } else {
                    (integrity, frame.data.clone())
                }
            },
            Err(_) => {
                proof {
                    assert(false);
                }
                (Integrity::Failed, frame.data.clone())
            },
        };
        let (integrity, data) = data;
        proof {
            assert(data@ == opts.stage(frame.header.vcid, frame.data@).1) by {
                if !(integrity == Integrity::NoErrors || integrity == Integrity::Corrected || integrity
                    == Integrity::Skipped) {
                    assert(data@ =~= frame.data@);
                }
            }
        }
        out.push(
            Frame {
                header: frame.header,
                missing: frame.missing,
                integrity: Some(integrity),
                data,
            },
        );
        i = i + 1;
    }
    out
}

} // verus!
