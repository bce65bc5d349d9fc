//! Synchronization stage.
use vstd::prelude::*;
use vstd::slice::slice_to_vec;
use crate::framing::synchronizer::{
    read_synchronized_blocks, spec_masks, spec_patterns, sync_blocks, views, ASM,
};

verus! {

/// Options used for synchronization
pub struct SyncOpts<'a> {
    marker: &'a [u8],
    length: usize,
}

impl<'a> SyncOpts<'a> {
    /// The attached sync marker.
    pub closed spec fn marker_view(&self) -> Seq<u8> {
        self.marker@
    }

    /// The length of a block, not including the marker.
    pub closed spec fn length_view(&self) -> usize {
        self.length
    }

    /// Create a new set of sync options.
    ///
    /// # Arguments
    /// * `length` Length of data to return as a block, not including the length of the attached
    /// sync marker.
    pub fn new(length: usize) -> (o: Self)
        ensures
            o.marker_view() == ASM@,
            o.length_view() == length,
    {
        SyncOpts { marker: &ASM, length }
    }

    /// Attached sync marker indicating the start of a block.
    pub fn with_asm(self, marker: &'a [u8]) -> (o: Self)
        ensures
            o.marker_view() == marker@,
            o.length_view() == self.length_view(),
    {
        SyncOpts { marker, length: self.length }
    }
}

/// The blocks synchronization finds in `reader` under `opts`.
pub open spec fn synced(reader: Seq<u8>, marker: Seq<u8>, length: usize) -> Seq<Seq<u8>> {
    sync_blocks(reader, spec_patterns(marker), spec_masks(marker), 0, length as int)
}

/// Whether synchronization can run on `reader` within the machine's limits.
pub open spec fn can_sync(reader: Seq<u8>, marker: Seq<u8>, length: usize) -> bool {
    &&& reader.len() < usize::MAX
    &&& marker.len() < usize::MAX
    &&& length < usize::MAX
    &&& marker.len() > 0 || length > 0
    &&& synced(reader, marker, length).len() + 1 < i32::MAX
}

/// Synchronize on the calling thread, keeping the blocks that are found whole.
pub fn sync_on_main(reader: Vec<u8>, opts: SyncOpts) -> (blocks: Vec<Vec<u8>>)
    requires
        can_sync(reader@, opts.marker_view(), opts.length_view()),
    ensures
        views(blocks@) == synced(reader@, opts.marker_view(), opts.length_view()),
{
    let marker = slice_to_vec(opts.marker);
    read_synchronized_blocks(reader, marker.as_slice(), opts.length)
}

/// Syncronize a bit stream to provide byte-aligned blocks of data.
pub fn synchronize(reader: Vec<u8>, opts: SyncOpts) -> (blocks: Vec<Vec<u8>>)
    requires
        can_sync(reader@, opts.marker_view(), opts.length_view()),
    ensures
        views(blocks@) == synced(reader@, opts.marker_view(), opts.length_view()),
{
    sync_on_main(reader, opts)
}


/// What [synchronize] gives is what [read_synchronized_blocks] gives for the same
/// stream, marker and block length: both find the blocks of [sync_blocks] from the
/// start of the stream.
pub proof fn lemma_synchronize_reads_blocks(reader: Seq<u8>, marker: Seq<u8>, length: usize)
    ensures
        synced(reader, marker, length) == sync_blocks(
            reader,
            spec_patterns(marker),
            spec_masks(marker),
            0,
            length as int,
        ),
{
}

} // verus!
