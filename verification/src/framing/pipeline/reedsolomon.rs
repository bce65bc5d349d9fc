//! Reed-Solomon stage with options for interleave, virtual fill and threads only.
use vstd::prelude::*;
use crate::framing::frame::Frame;
use crate::framing::pipeline::reed_solomon as full;

verus! {

/// Reed-Solomon options: detection and correction are always on.
#[derive(Debug, Clone, Copy)]
pub struct RsOpts {
    interleave: u8,
    virtual_fill: usize,
    num_threads: usize,
}

impl RsOpts {
    pub closed spec fn interleave_view(&self) -> u8 {
        self.interleave
    }

    pub closed spec fn virtual_fill_view(&self) -> usize {
        self.virtual_fill
    }

    pub closed spec fn num_threads_view(&self) -> usize {
        self.num_threads
    }

    pub fn new(interleave: u8) -> (o: Self)
        ensures
            o.interleave_view() == interleave,
            o.virtual_fill_view() == 0,
            o.num_threads_view() == 0,
    {
        RsOpts { interleave, virtual_fill: 0, num_threads: 0 }
    }

    pub fn virtual_fill(self, virtual_fill: usize) -> (o: Self)
        ensures
            o.interleave_view() == self.interleave_view(),
            o.virtual_fill_view() == virtual_fill,
            o.num_threads_view() == self.num_threads_view(),
    {
        let mut o = self;
        o.virtual_fill = virtual_fill;
        o
    }

    pub fn num_threads(self, num_threads: usize) -> (o: Self)
        ensures
            o.interleave_view() == self.interleave_view(),
            o.virtual_fill_view() == self.virtual_fill_view(),
            o.num_threads_view() == num_threads,
    {
        let mut o = self;
        o.num_threads = num_threads;
        o
    }

    /// The same configuration as the options of the full stage.
    pub fn to_full(&self) -> (o: full::RsOpts)
        ensures
            o.interleave_view() == self.interleave_view(),
            o.virtual_fill_view() == self.virtual_fill_view(),
            o.num_threads_view() == self.num_threads_view(),
            o.detect_view(),
            o.correct_view(),
    {
        full::RsOpts::new(self.interleave).with_virtual_fill(self.virtual_fill).with_num_threads(
            self.num_threads,
        )
    }
}

/// Perform Reed-Solomon detection and correction on each frame, in order, as
/// [reed_solomon](full::reed_solomon) does with detection and correction on.
pub fn reed_solomon(frames: Vec<Frame>, opts: RsOpts) -> (out: Vec<Frame>)
    requires
        forall|i: int|
            0 <= i < frames@.len() ==> full::rs_fits(
                opts.interleave_view(),
                opts.virtual_fill_view(),
                true,
                (#[trigger] frames@[i]).header.vcid,
                frames@[i].data@.len() as int,
            ),
    ensures
        out@.len() == frames@.len(),
        forall|i: int|
            0 <= i < out@.len() ==> {
                let (integ, data) = full::rs_stage(
                    opts.interleave_view(),
                    opts.virtual_fill_view(),
                    true,
                    true,
                    frames@[i].header.vcid,
                    frames@[i].data@,
                );
                &&& (#[trigger] out@[i]).header == frames@[i].header
                &&& out@[i].missing == frames@[i].missing
                &&& out@[i].integrity == Some(integ)
                &&& out@[i].data@ == data
            },
{
    let full_opts = opts.to_full();
    full::reed_solomon(frames, full_opts)
}

} // verus!
