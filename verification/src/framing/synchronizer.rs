//! Locating attached sync markers in a bit stream and extracting byte-aligned
//! blocks that follow them.
use vstd::prelude::*;
use vstd::slice::{slice_subrange, slice_to_vec};
use std::collections::HashMap;
use crate::bytes::Bytes;
use crate::error::Error;

verus! {

/// Default CCSDS attached sync marker.
pub const ASM: [u8; 4] = [0x1a, 0xcf, 0xfc, 0x1d];

/// Byte `i` of `dat` shifted left by `k` bits, taking in the high bits of the
/// following byte.
pub open spec fn shifted_byte(dat: Seq<u8>, k: u8, i: int) -> u8 {
    if k != 0 && i + 1 < dat.len() {
        (dat[i] << k) | (dat[i + 1] >> ((8 - k) as u8))
    } else {
        dat[i] << k
    }
}

/// `dat` as a bit string shifted left by `k` bits, without wrapping.
pub open spec fn spec_left_shift(dat: Seq<u8>, k: u8) -> Seq<u8> {
    Seq::new(dat.len(), |i: int| shifted_byte(dat, k, i))
}

/// Bit-shift each byte in dat by k bits to the left, without wrapping.
pub fn left_shift(dat: &[u8], k: usize) -> (out: Vec<u8>)
    requires
        k < 8,
        k != 0 ==> dat@.len() >= 1,
    ensures
        out@ == spec_left_shift(dat@, k as u8),
{
    let kk = k as u8;
    let mut out: Vec<u8> = Vec::with_capacity(dat.len());
    // left shift each byte the correct number of bits
    let mut i: usize = 0;
    while i < dat.len()
        invariant
            kk == k,
            kk < 8,
            i <= dat@.len(),
            out@.len() == i,
            forall|j: int| 0 <= j < i ==> #[trigger] out@[j] == dat@[j] << kk,
        decreases dat@.len() - i,
    {
        out.push(dat[i] << kk);
        i = i + 1;
    }
    // OR with the remainder from the i+1th byte
    if k != 0 {
        let mut i: usize = 0;
        while i < dat.len() - 1
            invariant
                kk == k,
                0 < kk < 8,
                dat@.len() >= 1,
                i <= dat@.len() - 1,
                out@.len() == dat@.len(),
                forall|j: int| 0 <= j < i ==> #[trigger] out@[j] == shifted_byte(dat@, kk, j),
                forall|j: int| i <= j < dat@.len() ==> #[trigger] out@[j] == dat@[j] << kk,
            decreases dat@.len() - 1 - i,
        {
            let v = out[i] | (dat[i + 1] >> (8 - kk));
            out.set(i, v);
            i = i + 1;
        }
    }
    assert(out@ =~= spec_left_shift(dat@, kk));
    out
}

/// The all-ones mask of length `n`.
pub open spec fn full_mask(n: nat) -> Seq<u8> {
    Seq::new(n, |i: int| 0xffu8)
}

/// The 8 bit-shifted patterns of `dat`: pattern 0 is `dat`, pattern `i > 0` is
/// `dat` shifted right by `i` bits within one extra leading byte.
pub open spec fn spec_patterns(dat: Seq<u8>) -> Seq<Seq<u8>> {
    Seq::new(
        8,
        |i: int|
            if i == 0 {
                dat
            } else {
                spec_left_shift(seq![0u8] + dat, (8 - i) as u8)
            },
    )
}

/// The masks of the significant bits of [spec_patterns].
pub open spec fn spec_masks(dat: Seq<u8>) -> Seq<Seq<u8>> {
    Seq::new(
        8,
        |i: int|
            if i == 0 {
                full_mask(dat.len())
            } else {
                spec_left_shift(seq![0u8] + full_mask(dat.len()), (8 - i) as u8)
            },
    )
}

/// The views of a vector of byte vectors.
pub open spec fn views(v: Seq<Vec<u8>>) -> Seq<Seq<u8>> {
    Seq::new(v.len(), |i: int| v[i]@)
}

/// Create all possible bit-shifted patterns, and their associated masks to indicate
/// significant bits, for dat.
pub fn create_patterns(dat: &[u8]) -> (res: (Vec<Vec<u8>>, Vec<Vec<u8>>))
    requires
        dat@.len() < usize::MAX,
    ensures
        views(res.0@) == spec_patterns(dat@),
        views(res.1@) == spec_masks(dat@),
{
    let n = dat.len();
    let mut patterns: Vec<Vec<u8>> = Vec::new();
    let mut masks: Vec<Vec<u8>> = Vec::new();

    // dat padded with an extra byte to give us room to shift
    let mut padded_pattern: Vec<u8> = Vec::with_capacity(n + 1);
    let mut padded_mask: Vec<u8> = Vec::with_capacity(n + 1);
    let mut first_mask: Vec<u8> = Vec::with_capacity(n);
    padded_pattern.push(0);
    padded_mask.push(0);
    let mut i: usize = 0;
    while i < n
        invariant
            n == dat@.len(),
            i <= n,
            padded_pattern@ =~= seq![0u8] + dat@.subrange(0, i as int),
            padded_mask@ =~= seq![0u8] + full_mask(i as nat),
            first_mask@ =~= full_mask(i as nat),
        decreases n - i,
    {
        padded_pattern.push(dat[i]);
        padded_mask.push(0xff);
        first_mask.push(0xff);
        i = i + 1;
    }
    assert(dat@.subrange(0, n as int) =~= dat@);

    // First pattern is just the marker (one less in length than the rest)
    patterns.push(slice_to_vec(dat));
    // First mask is all 1s because all bits must match
    masks.push(first_mask);

    // Bit-shift other bytes such that the first byte of the pattern is the first
    // byte of dat shifted *RIGHT* by 1.
    let mut i: usize = 1;
    while i < 8
        invariant
            1 <= i <= 8,
            padded_pattern@ =~= seq![0u8] + dat@,
            padded_mask@ =~= seq![0u8] + full_mask(dat@.len()),
            views(patterns@) =~= spec_patterns(dat@).subrange(0, i as int),
            views(masks@) =~= spec_masks(dat@).subrange(0, i as int),
        decreases 8 - i,
    {
        let p = left_shift(padded_pattern.as_slice(), 8 - i);
        let m = left_shift(padded_mask.as_slice(), 8 - i);
        let ghost old_patterns = patterns@;
        let ghost old_masks = masks@;
        patterns.push(p);
        masks.push(m);
        proof {
            assert(views(patterns@) =~= views(old_patterns).push(p@));
            assert(views(masks@) =~= views(old_masks).push(m@));
            assert(spec_patterns(dat@)[i as int] == p@);
            assert(spec_masks(dat@)[i as int] == m@);
            assert(spec_patterns(dat@).subrange(0, i + 1) =~= spec_patterns(dat@).subrange(
                0,
                i as int,
            ).push(p@));
            assert(spec_masks(dat@).subrange(0, i + 1) =~= spec_masks(dat@).subrange(
                0,
                i as int,
            ).push(m@));
        }
        i = i + 1;
    }
    assert(spec_patterns(dat@).subrange(0, 8) =~= spec_patterns(dat@));
    assert(spec_masks(dat@).subrange(0, 8) =~= spec_masks(dat@));
    (patterns, masks)
}

/// A sychronized block location.
#[derive(Debug, Clone, Copy, PartialEq, Eq, Structural)]
pub struct Loc {
    /// Offset (1-based) to the first byte after a found sync marker
    pub offset: usize,
    /// The bit in the byte at offset where the marker is found.
    pub bit: u8,
}

/// Outcome of comparing one bit-shifted pattern against the stream at one offset.
pub enum Probe {
    /// Some available byte differs from the pattern in its significant bits.
    Mismatch,
    /// All available bytes agree, but the stream ends within the pattern.
    Eof,
    /// The whole pattern is present.
    Match,
}

/// Byte `j` of the pattern placed at offset `p` of `st` is present and differs in
/// its significant bits.
pub open spec fn mismatch_at(st: Seq<u8>, p: int, pat: Seq<u8>, mask: Seq<u8>, j: int) -> bool {
    0 <= j < pat.len() && p + j < st.len() && st[p + j] & mask[j] != pat[j]
}

/// Compare pattern `pat` with significant bits `mask` against `st` at offset `p`.
pub open spec fn probe(st: Seq<u8>, p: int, pat: Seq<u8>, mask: Seq<u8>) -> Probe {
    if exists|j: int| mismatch_at(st, p, pat, mask, j) {
        Probe::Mismatch
    } else if p + pat.len() <= st.len() {
        Probe::Match
    } else {
        Probe::Eof
    }
}

/// The search a scan performs, starting with pattern `k` at offset `p`: all later
/// patterns at the same offset, then all patterns at the next offset, and so on.
/// Returns whether a marker was found, and the offset and pattern where the
/// search ended.
pub open spec fn search(st: Seq<u8>, pats: Seq<Seq<u8>>, masks: Seq<Seq<u8>>, p: int, k: int) -> (
    bool,
    int,
    int,
)
    decreases st.len() - p, 8 - k,
{
    if p < 0 || p > st.len() || k < 0 || k >= 8 {
        (false, p, k)
    } else {
        match probe(st, p, pats[k], masks[k]) {
            Probe::Match => (true, p, k),
            Probe::Eof => (false, p, k),
            Probe::Mismatch => {
                if k + 1 < 8 {
                    search(st, pats, masks, p, k + 1)
                } else if p < st.len() {
                    search(st, pats, masks, p + 1, 0)
                } else {
                    (false, p, k)
                }
            },
        }
    }
}

/// Number of stream bytes a found marker using pattern `k` of length `len` leaves
/// consumed: a partially used last byte is kept for the block.
pub open spec fn marker_consumed(p: int, k: int, len: int) -> int {
    if k > 0 {
        p + len - 1
    } else {
        p + len
    }
}

/// Synchronizer scans a byte stream for data blocks indicated by a sync marker.
///
/// The sync marker may be bit-shifted, in which case the bytes returned will also
/// be bit shifted.
pub struct Synchronizer {
    bytes: Bytes,
    // Size of the block of data expected after an ASM
    block_size: usize,
    // All 8 possible bit patterns
    patterns: Vec<Vec<u8>>,
    // Bit-mask indicating the relavent bits for all 8 patterns
    masks: Vec<Vec<u8>>,
    // Index of the current pattern in the pattern vector
    pattern_idx: usize,
    /// Count of times each pattern was used.
    pub pattern_hits: HashMap<u8, i32>,
}

impl Synchronizer {
    pub closed spec fn bytes_view(&self) -> Bytes {
        self.bytes
    }

    /// Count of found markers per pattern.
    pub closed spec fn hits_view(&self) -> Map<u8, i32> {
        self.pattern_hits@
    }

    pub closed spec fn block_size_view(&self) -> int {
        self.block_size as int
    }

    pub closed spec fn patterns_view(&self) -> Seq<Seq<u8>> {
        views(self.patterns@)
    }

    pub closed spec fn masks_view(&self) -> Seq<Seq<u8>> {
        views(self.masks@)
    }

    /// The pattern tried first by the next scan: the pattern of the last found
    /// marker.
    pub closed spec fn pattern_idx_view(&self) -> int {
        self.pattern_idx as int
    }

    /// Well-formedness of everything but the pushed-back bytes.
    pub closed spec fn tables_wf(&self) -> bool {
        &&& self.bytes.wf()
        &&& self.patterns@.len() == 8
        &&& self.masks@.len() == 8
        &&& forall|k: int|
            0 <= k < 8 ==> #[trigger] self.masks@[k]@.len() == self.patterns@[k]@.len()
        &&& forall|k: int|
            1 <= k < 8 ==> #[trigger] self.patterns@[k]@.len() == self.patterns@[0]@.len() + 1
        &&& self.pattern_idx < 8
        &&& self.bytes.source_view().len() < usize::MAX
        &&& self.block_size < usize::MAX
    }

    pub closed spec fn wf(&self) -> bool {
        &&& self.tables_wf()
        &&& self.bytes.cache_view().len() <= 1
        &&& self.bytes.cache_view().len() <= self.bytes.num_read_view()
    }

    /// The byte stream not yet consumed by scans and blocks.
    pub open spec fn stream(&self) -> Seq<u8> {
        self.bytes_view().stream()
    }

    /// Creates a new ``Synchronizer``.
    ///
    /// `block_size` is the length of the CADU minus the length of the ASM.
    pub fn new(reader: Vec<u8>, marker: &[u8], block_size: usize) -> (s: Self)
        requires
            reader@.len() < usize::MAX,
            marker@.len() < usize::MAX,
            block_size < usize::MAX,
        ensures
            s.wf(),
            s.patterns_view() == spec_patterns(marker@),
            s.masks_view() == spec_masks(marker@),
            s.pattern_idx_view() == 0,
            s.block_size_view() == block_size,
            s.stream() == reader@,
            s.bytes_view().taken() == 0,
            s.hits_view() == Map::<u8, i32>::empty(),
    {
        let (patterns, masks) = create_patterns(marker);
        let bytes = Bytes::new(reader);
        assert(bytes.stream() =~= reader@);
        proof {
            assert(views(masks@).len() == masks@.len());
            assert(views(patterns@).len() == patterns@.len());
            assert(spec_masks(marker@).len() == 8);
            assert(spec_patterns(marker@).len() == 8);
            assert forall|k: int| 0 <= k < 8 implies #[trigger] masks@[k]@.len()
                == patterns@[k]@.len() by {
                assert(views(masks@)[k] == masks@[k]@);
                assert(views(patterns@)[k] == patterns@[k]@);
            }
            assert forall|k: int| 1 <= k < 8 implies #[trigger] patterns@[k]@.len()
                == patterns@[0]@.len() + 1 by {
                assert(views(patterns@)[k] == patterns@[k]@);
                assert(views(patterns@)[0] == patterns@[0]@);
            }
        }
        Synchronizer {
            bytes,
            block_size,
            patterns,
            masks,
            pattern_idx: 0,
            pattern_hits: HashMap::new(),
        }
    }

    /// Length of pattern `k`.
    pub open spec fn pattern_len(&self, k: int) -> int {
        self.patterns_view()[k].len() as int
    }

    /// What a scan from this state finds: see [search].
    pub open spec fn scan_outcome(&self) -> (bool, int, int) {
        search(self.stream(), self.patterns_view(), self.masks_view(), 0, self.pattern_idx_view())
    }

    /// Compare pattern `self.pattern_idx` against the stream, reading bytes into
    /// `working` until a byte differs, the stream ends, or the whole pattern
    /// matched. Returns whether a byte differed, its index, and the last byte read.
    fn try_pattern(
        &mut self,
        working: &mut Vec<u8>,
        Ghost(st0): Ghost<Seq<u8>>,
        Ghost(p): Ghost<int>,
        Ghost(t0): Ghost<int>,
        Ghost(bound): Ghost<int>,
    ) -> (r: Result<(bool, usize, u8), Error>)
        requires
            old(self).tables_wf(),
            0 <= p <= st0.len(),
            old(self).bytes.stream() == st0.subrange(p, st0.len() as int),
            old(self).bytes.taken() == t0 + p,
            old(self).bytes.cache_view().len() + p <= bound,
            p + old(self).pattern_len(old(self).pattern_idx as int) <= bound,
            old(working)@.len() == 0,
        ensures
            final(self).tables_wf(),
            final(self).patterns_view() == old(self).patterns_view(),
            final(self).masks_view() == old(self).masks_view(),
            final(self).pattern_idx == old(self).pattern_idx,
            final(self).block_size == old(self).block_size,
            final(self).pattern_hits@ == old(self).pattern_hits@,
            final(self).bytes.source_view() == old(self).bytes.source_view(),
            ({
                let k = old(self).pattern_idx as int;
                let pat = old(self).patterns_view()[k];
                let mask = old(self).masks_view()[k];
                &&& r is Err ==> {
                    &&& r matches Err(Error::UnexpectedEof)
                    &&& probe(st0, p, pat, mask) == Probe::Eof
                    &&& final(self).bytes.stream().len() == 0
                }
                &&& r matches Ok((true, j, _)) ==> {
                    &&& j < pat.len()
                    &&& mismatch_at(st0, p, pat, mask, j as int)
                    &&& probe(st0, p, pat, mask) == Probe::Mismatch
                    &&& final(working)@ == st0.subrange(p, p + j + 1)
                    &&& final(self).bytes.stream() == st0.subrange(p + j + 1, st0.len() as int)
                    &&& final(self).bytes.taken() == t0 + p + j + 1
                    &&& final(self).bytes.cache_view().len() + p + j + 1 <= bound
                }
                &&& r matches Ok((false, _, b)) ==> {
                    &&& probe(st0, p, pat, mask) == Probe::Match
                    &&& p + pat.len() <= st0.len()
                    &&& final(self).bytes.stream() == st0.subrange(
                        p + pat.len(),
                        st0.len() as int,
                    )
                    &&& final(self).bytes.taken() == t0 + p + pat.len()
                    &&& final(self).bytes.cache_view().len() + p + pat.len() <= bound
                    &&& pat.len() > 0 ==> b == st0[p + pat.len() - 1]
                }
            }),
    {
        let k = self.pattern_idx;
        let plen = self.patterns[k].len();
        let ghost pat = self.patterns_view()[k as int];
        let ghost mask = self.masks_view()[k as int];
        proof {
            assert(pat == self.patterns@[k as int]@);
            assert(mask == self.masks@[k as int]@);
        }
        let mut b: u8 = 0;
        let mut byte_idx: usize = 0;
        while byte_idx < plen
            invariant
                self.tables_wf(),
                k == self.pattern_idx,
                k == old(self).pattern_idx,
                self.patterns_view() == old(self).patterns_view(),
                self.masks_view() == old(self).masks_view(),
                self.block_size == old(self).block_size,
                self.pattern_hits@ == old(self).pattern_hits@,
                self.bytes.source_view() == old(self).bytes.source_view(),
                self.patterns == old(self).patterns,
                self.masks == old(self).masks,
                pat == old(self).patterns_view()[k as int],
                mask == old(self).masks_view()[k as int],
                plen == pat.len(),
                pat == self.patterns@[k as int]@,
                mask == self.masks@[k as int]@,
                0 <= p,
                byte_idx <= plen,
                p + byte_idx <= st0.len(),
                working@ == st0.subrange(p, p + byte_idx),
                self.bytes.stream() == st0.subrange(p + byte_idx, st0.len() as int),
                self.bytes.taken() == t0 + p + byte_idx,
                self.bytes.cache_view().len() + p + byte_idx <= bound,
                p + plen <= bound,
                forall|j: int| 0 <= j < byte_idx ==> !#[trigger] mismatch_at(st0, p, pat, mask, j),
                byte_idx > 0 ==> b == st0[p + byte_idx - 1],
            decreases plen - byte_idx,
        {
            match self.bytes.next() {
                Err(e) => {
                    proof {
                        assert(st0.len() == p + byte_idx);
                        assert(!exists|j: int| mismatch_at(st0, p, pat, mask, j));
                    }
                    return Err(e);
                },
                Ok(x) => {
                    b = x;
                },
            }
            proof {
                assert(b == st0[p + byte_idx]);
                assert(self.bytes.stream() =~= st0.subrange(p + byte_idx + 1, st0.len() as int));
            }
            working.push(b);
            assert(working@ =~= st0.subrange(p, p + byte_idx + 1));
            if (b & self.masks[k][byte_idx]) != self.patterns[k][byte_idx] {
                assert(mismatch_at(st0, p, pat, mask, byte_idx as int));
                return Ok((true, byte_idx, b));
            }
            assert(!mismatch_at(st0, p, pat, mask, byte_idx as int));
            byte_idx = byte_idx + 1;
        }
        proof {
            assert(!exists|j: int| mismatch_at(st0, p, pat, mask, j));
        }
        Ok((false, byte_idx, b))
    }

    /// Scan our stream until the next sync marker is found and return a option containing
    /// a [Some(Loc)] indicating the position of the data block and any left bit-shift currently
    /// in effect. If there are not enough bytes to check the sync marker return Ok(None).
    ///
    /// Patterns are tried starting with the pattern of the last found marker; see [search].
    #[verifier::rlimit(50)]
    pub fn scan(&mut self) -> (res: Result<Option<Loc>, Error>)
        requires
            old(self).wf(),
            forall|h: u8| #[trigger]
                old(self).hits_view().contains_key(h) ==> old(self).hits_view()[h] < i32::MAX,
        ensures
            final(self).wf(),
            final(self).patterns_view() == old(self).patterns_view(),
            final(self).masks_view() == old(self).masks_view(),
            final(self).block_size_view() == old(self).block_size_view(),
            ({
                let (found, p, k) = old(self).scan_outcome();
                let len = old(self).pattern_len(k);
                &&& 0 <= p
                &&& 0 <= k < 8
                &&& final(self).pattern_idx_view() == k
                &&& found ==> {
                    let consumed = marker_consumed(p, k, len);
                    &&& res == Ok::<Option<Loc>, Error>(
                        Some(
                            Loc {
                                offset: (old(self).bytes_view().taken() + p + len + (if k == 0 {
                                    1int
                                } else {
                                    0int
                                })) as usize,
                                bit: ((8 - k) % 8) as u8,
                            },
                        ),
                    )
                    &&& p + len <= old(self).stream().len()
                    &&& final(self).stream() == old(self).stream().subrange(
                        consumed,
                        old(self).stream().len() as int,
                    )
                    &&& final(self).bytes_view().taken() == old(self).bytes_view().taken()
                        + consumed
                    &&& final(self).hits_view() == old(self).hits_view().insert(
                        k as u8,
                        if old(self).hits_view().contains_key(k as u8) {
                            (old(self).hits_view()[k as u8] + 1) as i32
                        } else {
                            1i32
                        },
                    )
                }
                &&& !found ==> {
                    &&& res == Ok::<Option<Loc>, Error>(None)
                    &&& final(self).stream().len() == 0
                    &&& final(self).hits_view() == old(self).hits_view()
                }
            }),
    {
        broadcast use vstd::std_specs::hash::group_hash_axioms;

        let ghost st0 = self.stream();
        let ghost pats = self.patterns_view();
        let ghost msks = self.masks_view();
        let ghost c0 = self.bytes.cache_view().len();
        let ghost t0 = self.bytes.taken();
        let ghost k0 = self.pattern_idx as int;
        let ghost mut p: int = 0;
        let mut b: u8 = 0;
        let mut working: Vec<u8> = Vec::new();
        proof {
            self.bytes.lemma_wf();
            assert(st0.subrange(0, st0.len() as int) =~= st0);
        }

        loop
            invariant_except_break
                0 <= p <= st0.len(),
                search(st0, pats, msks, 0, k0) == search(st0, pats, msks, p, self.pattern_idx as int),
                self.bytes.stream() == st0.subrange(p, st0.len() as int),
                self.bytes.taken() == t0 + p,
                self.bytes.cache_view().len() + p <= vstd::math::max(
                    c0 as int,
                    p + pats[self.pattern_idx as int].len(),
                ),
                working@.len() == 0,
            invariant
                self.tables_wf(),
                self.patterns_view() == pats,
                self.masks_view() == msks,
                self.block_size == old(self).block_size,
                self.pattern_hits@ == old(self).pattern_hits@,
                self.bytes.source_view() == old(self).bytes.source_view(),
                st0 == old(self).stream(),
                pats == old(self).patterns_view(),
                msks == old(self).masks_view(),
                c0 == old(self).bytes.cache_view().len(),
                t0 == old(self).bytes.taken(),
                c0 <= 1,
                t0 >= 0,
                k0 == old(self).pattern_idx as int,
            ensures
                0 <= p,
                p + pats[self.pattern_idx as int].len() <= st0.len(),
                search(st0, pats, msks, 0, k0) == (true, p, self.pattern_idx as int),
                self.bytes.stream() == st0.subrange(
                    p + pats[self.pattern_idx as int].len(),
                    st0.len() as int,
                ),
                self.bytes.taken() == t0 + p + pats[self.pattern_idx as int].len(),
                self.bytes.cache_view().len() + p + pats[self.pattern_idx as int].len()
                    <= vstd::math::max(c0 as int, p + pats[self.pattern_idx as int].len()),
                pats[self.pattern_idx as int].len() > 0 ==> b == st0[p
                    + pats[self.pattern_idx as int].len() - 1],
            decreases st0.len() - p, 8 - self.pattern_idx,
        {
            let ghost bound = vstd::math::max(c0 as int, p + pats[self.pattern_idx as int].len());
            let r = self.try_pattern(&mut working, Ghost(st0), Ghost(p), Ghost(t0), Ghost(bound));
            let (mismatch, byte_idx, last) = match r {
                Err(Error::UnexpectedEof) => {
                    proof {
                        assert(self.bytes.stream().len() == 0);
                        assert(self.bytes.cache_view().len() == 0);
                        assert(self.tables_wf());
                        self.bytes.lemma_wf();
                    }
                    return Ok(None);
                },
                Err(e) => {
                    return Err(e);
                },
                Ok(v) => v,
            };
            if !mismatch {
                b = last;
                break;
            }
            // No match
            let ghost k = self.pattern_idx as int;
            self.pattern_idx = self.pattern_idx + 1;
            if self.pattern_idx == 8 {
                // put all but the first byte in the working set back on bytes
                // (since we now have fully checked the first byte and know a
                // marker does not begin there)
                self.pattern_idx = 0;
                let back = slice_subrange(working.as_slice(), 1, working.len());
                self.bytes.push(back);
                proof {
                    assert(back@ =~= st0.subrange(p + 1, p + byte_idx + 1));
                    assert(self.bytes.stream() =~= st0.subrange(p + 1, st0.len() as int));
                    p = p + 1;
                }
            } else {
                // If we haven't checked all patterns put the working set back on bytes to
                // check against the other patterns.
                self.bytes.push(working.as_slice());
                proof {
                    assert(self.bytes.stream() =~= st0.subrange(p, st0.len() as int));
                }
            }
            working.clear();
        }
        proof {
            assert forall|h: u8| #[trigger]
                self.hits_view().contains_key(h) implies self.hits_view()[h] < i32::MAX by {
                assert(old(self).hits_view().contains_key(h));
            }
        }
        self.finish_scan(b, Ghost(st0), Ghost(p), Ghost(t0), Ghost(c0 as int))
    }

    /// Record a found marker: the location, a push-back of the partially used last
    /// byte, and the pattern hit count.
    fn finish_scan(
        &mut self,
        b: u8,
        Ghost(st0): Ghost<Seq<u8>>,
        Ghost(p): Ghost<int>,
        Ghost(t0): Ghost<int>,
        Ghost(c0): Ghost<int>,
    ) -> (res: Result<Option<Loc>, Error>)
        requires
            old(self).tables_wf(),
            c0 <= 1,
            t0 >= 0,
            0 <= p,
            p + old(self).pattern_len(old(self).pattern_idx as int) <= st0.len(),
            old(self).bytes.stream() == st0.subrange(
                p + old(self).pattern_len(old(self).pattern_idx as int),
                st0.len() as int,
            ),
            old(self).bytes.taken() == t0 + p + old(self).pattern_len(
                old(self).pattern_idx as int,
            ),
            old(self).bytes.cache_view().len() + p + old(self).pattern_len(
                old(self).pattern_idx as int,
            ) <= vstd::math::max(c0, p + old(self).pattern_len(old(self).pattern_idx as int)),
            old(self).pattern_len(old(self).pattern_idx as int) > 0 ==> b == st0[p
                + old(self).pattern_len(old(self).pattern_idx as int) - 1],
            forall|h: u8| #[trigger]
                old(self).hits_view().contains_key(h) ==> old(self).hits_view()[h] < i32::MAX,
        ensures
            final(self).wf(),
            final(self).patterns_view() == old(self).patterns_view(),
            final(self).masks_view() == old(self).masks_view(),
            final(self).block_size_view() == old(self).block_size_view(),
            final(self).pattern_idx == old(self).pattern_idx,
            ({
                let k = old(self).pattern_idx as int;
                let len = old(self).pattern_len(k);
                let consumed = marker_consumed(p, k, len);
                &&& res == Ok::<Option<Loc>, Error>(
                    Some(
                        Loc {
                            offset: (t0 + p + len + (if k == 0 {
                                1int
                            } else {
                                0int
                            })) as usize,
                            bit: ((8 - k) % 8) as u8,
                        },
                    ),
                )
                &&& final(self).stream() == st0.subrange(consumed, st0.len() as int)
                &&& final(self).bytes_view().taken() == t0 + consumed
                &&& final(self).hits_view() == old(self).hits_view().insert(
                    k as u8,
                    if old(self).hits_view().contains_key(k as u8) {
                        (old(self).hits_view()[k as u8] + 1) as i32
                    } else {
                        1i32
                    },
                )
            }),
    {
        broadcast use vstd::std_specs::hash::group_hash_axioms;

        proof {
            self.bytes.lemma_wf();
            assert(self.patterns_view()[self.pattern_idx as int] == self.patterns@[self.pattern_idx as int]@);
            assert(self.patterns_view()[0] == self.patterns@[0]@);
        }
        let mut loc = Loc { offset: self.bytes.offset(), bit: ((8 - self.pattern_idx) % 8) as u8 };
        // Exact sync means data block starts at the next byte
        if loc.bit == 0 {
            loc.offset = loc.offset + 1;
        }

        if self.pattern_idx > 0 {
            let back = vec![b];
            self.bytes.push(back.as_slice());
            proof {
                assert(back@.reverse() =~= seq![b]);
                assert(self.bytes.stream() =~= st0.subrange(
                    p + self.pattern_len(self.pattern_idx as int) - 1,
                    st0.len() as int,
                ));
            }
        }

        let key = self.pattern_idx as u8;
        let count: i32 = match self.pattern_hits.get(&key) {
            Some(c) => {
                assert(old(self).hits_view().contains_key(key));
                *c
            },
            None => 0,
        };
        self.pattern_hits.insert(key, count + 1);
        Ok(Some(loc))
    }

    /// Number of stream bytes a block takes before the partially used last byte,
    /// if any, is pushed back.
    pub open spec fn block_read_len(&self) -> int {
        if self.pattern_idx_view() != 0 {
            self.block_size_view() + 1
        } else {
            self.block_size_view()
        }
    }

    /// The block at the front of the stream: [Self::block_read_len] bytes shifted
    /// left by the bit offset of the last found marker, cut to the block size.
    pub open spec fn next_block(&self) -> Seq<u8> {
        spec_left_shift(
            self.stream().subrange(0, self.block_read_len()),
            self.pattern_idx_view() as u8,
        ).subrange(0, self.block_size_view())
    }

    /// Fetch a block from the stream: the `block_size` bytes after the last found
    /// marker, byte-aligned.
    ///
    /// # Errors
    /// [Error::UnexpectedEof] if the stream ends before a full block.
    pub fn block(&mut self) -> (res: Result<Vec<u8>, Error>)
        requires
            old(self).wf(),
        ensures
            final(self).wf(),
            final(self).patterns_view() == old(self).patterns_view(),
            final(self).masks_view() == old(self).masks_view(),
            final(self).block_size_view() == old(self).block_size_view(),
            final(self).pattern_idx_view() == old(self).pattern_idx_view(),
            final(self).hits_view() == old(self).hits_view(),
            old(self).stream().len() >= old(self).block_read_len() ==> {
                &&& res matches Ok(v) && v@ == old(self).next_block()
                &&& final(self).stream() == old(self).stream().subrange(
                    old(self).block_size_view(),
                    old(self).stream().len() as int,
                )
                &&& final(self).bytes_view().taken() == old(self).bytes_view().taken()
                    + old(self).block_size_view()
            },
            old(self).stream().len() < old(self).block_read_len() ==> res matches Err(
                Error::UnexpectedEof,
            ),
    {
        proof {
            self.bytes.lemma_wf();
        }
        let k = self.pattern_idx;
        let n = if k != 0 {
            // Make room for bit-shifting
            self.block_size + 1
        } else {
            self.block_size
        };
        let mut buf: Vec<u8> = vec![0u8; n];
        let ghost st = self.stream();
        match self.bytes.fill(buf.as_mut_slice()) {
            Ok(true) => {},
            _ => {
                return Err(Error::UnexpectedEof);
            },
        }
        if k != 0 {
            // There's a partially used byte, so push it back for the next read
            let back = vec![buf[n - 1]];
            self.bytes.push(back.as_slice());
            proof {
                assert(back@.reverse() =~= seq![st[n - 1]]);
                assert(self.bytes.stream() =~= st.subrange(n - 1, st.len() as int));
            }
        }
        let shifted = left_shift(buf.as_slice(), k);
        let out = slice_to_vec(slice_subrange(shifted.as_slice(), 0, self.block_size));
        Ok(out)
    }

    pub fn into_iter(self) -> (it: BlockIter)
        ensures
            it.scanner == self,
    {
        BlockIter { scanner: self }
    }
}

/// Iterates over synchronized data in block size defined by the source [Synchronizer].
/// Created using ``Synchronizer::into_iter``.
///
/// If a full block cannot be constructed the iteration simply ends, i.e., next
/// returns `None`.
pub struct BlockIter {
    pub scanner: Synchronizer,
}

impl BlockIter {
    /// The next block: scan for a marker, then take the block after it.
    pub fn next(&mut self) -> (res: Option<Result<Vec<u8>, Error>>)
        requires
            old(self).scanner.wf(),
            forall|h: u8| #[trigger]
                old(self).scanner.hits_view().contains_key(h) ==> old(self).scanner.hits_view()[h]
                    < i32::MAX,
        ensures
            final(self).scanner.wf(),
            final(self).scanner.patterns_view() == old(self).scanner.patterns_view(),
            final(self).scanner.masks_view() == old(self).scanner.masks_view(),
            final(self).scanner.block_size_view() == old(self).scanner.block_size_view(),
            ({
                let (found, p, k) = old(self).scanner.scan_outcome();
                let len = old(self).scanner.pattern_len(k);
                let st1 = old(self).scanner.stream().subrange(
                    marker_consumed(p, k, len),
                    old(self).scanner.stream().len() as int,
                );
                let bs = old(self).scanner.block_size_view();
                let m = if k != 0 {
                    bs + 1
                } else {
                    bs
                };
                &&& final(self).scanner.pattern_idx_view() == k
                &&& 0 <= k < 8
                &&& found ==> 0 <= p && p + len <= old(self).scanner.stream().len()
                &&& found ==> forall|h: u8| #[trigger]
                    final(self).scanner.hits_view().contains_key(h) ==> if h == k as u8 {
                        final(self).scanner.hits_view()[h] == (if old(
                            self,
                        ).scanner.hits_view().contains_key(h) {
                            old(self).scanner.hits_view()[h] + 1
                        } else {
                            1
                        })
                    } else {
                        old(self).scanner.hits_view().contains_key(h)
                            && final(self).scanner.hits_view()[h] == old(
                            self,
                        ).scanner.hits_view()[h]
                    }
                &&& (!found || st1.len() < m) ==> res is None
                &&& (found && st1.len() >= m) ==> {
                    &&& res matches Some(Ok(v)) && v@ == spec_left_shift(
                        st1.subrange(0, m),
                        k as u8,
                    ).subrange(0, bs)
                    &&& final(self).scanner.stream() == st1.subrange(bs, st1.len() as int)
                }
            }),
    {
        match self.scanner.scan() {
            Ok(Some(_)) => (),  // got a valid Loc
            Ok(None) => return None,  // no loc, must be done
            Err(err) => return Some(Err(err)),
        }
        match self.scanner.block() {
            Ok(block) => Some(Ok(block)),
            Err(_) => None,
        }
    }
}

/// The blocks a [BlockIter] produces from stream `st`, starting with pattern
/// `k0`, for the given patterns, masks and block size.
pub open spec fn sync_blocks(
    st: Seq<u8>,
    pats: Seq<Seq<u8>>,
    masks: Seq<Seq<u8>>,
    k0: int,
    bs: int,
) -> Seq<Seq<u8>>
    decreases st.len(),
{
    let (found, p, k) = search(st, pats, masks, 0, k0);
    let st1 = st.subrange(marker_consumed(p, k, pats[k].len() as int), st.len() as int);
    let m = if k != 0 {
        bs + 1
    } else {
        bs
    };
    if !found || st1.len() < m || bs < 0 || p < 0 || marker_consumed(p, k, pats[k].len() as int)
        < 0 || marker_consumed(p, k, pats[k].len() as int) > st.len() {
        seq![]
    } else {
        let blk = spec_left_shift(st1.subrange(0, m), k as u8).subrange(0, bs);
        let st2 = st1.subrange(bs, st1.len() as int);
        if st2.len() < st.len() {
            seq![blk] + sync_blocks(st2, pats, masks, k, bs)
        } else {
            seq![blk]
        }
    }
}

/// Synchronization finds at most one block more than the stream has bytes.
pub proof fn lemma_sync_blocks_len(st: Seq<u8>, pats: Seq<Seq<u8>>, masks: Seq<Seq<u8>>, k0: int, bs: int)
    ensures
        sync_blocks(st, pats, masks, k0, bs).len() <= st.len() + 1,
    decreases st.len(),
{
    let (found, p, k) = search(st, pats, masks, 0, k0);
    let st1 = st.subrange(marker_consumed(p, k, pats[k].len() as int), st.len() as int);
    let m = if k != 0 {
        bs + 1
    } else {
        bs
    };
    if !found || st1.len() < m || bs < 0 || p < 0 || marker_consumed(p, k, pats[k].len() as int) < 0
        || marker_consumed(p, k, pats[k].len() as int) > st.len() {
    } else {
        let st2 = st1.subrange(bs, st1.len() as int);
        if st2.len() < st.len() {
            lemma_sync_blocks_len(st2, pats, masks, k, bs);
        }
    }
}

/// Collects the byte-aligned data blocks of `reader`.
///
/// `marker` is the attached synchronization marker used to locate blocks in the data
/// stream, and `block_size` is size of each block w/o the marker.
///
/// The marker need not be byte-aligned in the stream but it is expected that block
/// data will follow immediately after it. Blocks returned will be byte-aligned.
///
/// Data blocks are only produced if there are `block_size` bytes available, i.e.,
/// any partial block at the end of the stream is dropped.
///
/// For more control over the iteration process see [Synchronizer].
pub fn read_synchronized_blocks(reader: Vec<u8>, marker: &[u8], block_size: usize) -> (blocks: Vec<
    Vec<u8>,
>)
    requires
        reader@.len() < usize::MAX,
        marker@.len() < usize::MAX,
        block_size < usize::MAX,
        marker@.len() > 0 || block_size > 0,
        sync_blocks(
            reader@,
            spec_patterns(marker@),
            spec_masks(marker@),
            0,
            block_size as int,
        ).len() + 1 < i32::MAX,
    ensures
        views(blocks@) == sync_blocks(
            reader@,
            spec_patterns(marker@),
            spec_masks(marker@),
            0,
            block_size as int,
        ),
{
    let mut iter = Synchronizer::new(reader, marker, block_size).into_iter();
    let mut blocks: Vec<Vec<u8>> = Vec::new();
    let ghost pats = spec_patterns(marker@);
    let ghost msks = spec_masks(marker@);
    let ghost total = sync_blocks(reader@, pats, msks, 0, block_size as int);
    proof {
        assert(views(blocks@) =~= Seq::<Seq<u8>>::empty());
        assert(views(blocks@) + total =~= total);
    }
    loop
        invariant_except_break
            iter.scanner.wf(),
            iter.scanner.patterns_view() == pats,
            iter.scanner.masks_view() == msks,
            iter.scanner.block_size_view() == block_size,
            forall|h: u8| #[trigger]
                iter.scanner.hits_view().contains_key(h) ==> iter.scanner.hits_view()[h]
                    <= blocks@.len(),
            views(blocks@) + sync_blocks(
                iter.scanner.stream(),
                pats,
                msks,
                iter.scanner.pattern_idx_view(),
                block_size as int,
            ) == total,
        invariant
            pats == spec_patterns(marker@),
            msks == spec_masks(marker@),
            marker@.len() > 0 || block_size > 0,
            total.len() + 1 < i32::MAX,
        ensures
            views(blocks@) == total,
        decreases iter.scanner.stream().len(),
    {
        let ghost before = iter.scanner;
        let ghost st = before.stream();
        let ghost k0 = before.pattern_idx_view();
        proof {
            let rest = sync_blocks(st, pats, msks, k0, block_size as int);
            assert((views(blocks@) + rest).len() == total.len());
            assert forall|h: u8| #[trigger]
                iter.scanner.hits_view().contains_key(h) implies iter.scanner.hits_view()[h]
                < i32::MAX by {
                assert(iter.scanner.hits_view()[h] <= blocks@.len());
            }
        }
        let r = iter.next();
        proof {
            let (found, p, k) = search(st, pats, msks, 0, k0);
            let n = marker@.len();
            assert(pats[0] == marker@);
            assert(pats[k].len() == if k == 0 {
                n
            } else {
                n + 1
            });
        }
        match r {
            Some(Ok(block)) => {
                let ghost old_blocks = blocks@;
                blocks.push(block);
                proof {
                    let (found, p, k) = search(st, pats, msks, 0, k0);
                    let len = pats[k].len() as int;
                    let st1 = st.subrange(marker_consumed(p, k, len), st.len() as int);
                    let st2 = st1.subrange(block_size as int, st1.len() as int);
                    assert(st2.len() < st.len());
                    assert(views(blocks@) =~= views(old_blocks).push(block@));
                    let blk = sync_blocks(st, pats, msks, k0, block_size as int)[0];
                    assert(sync_blocks(st, pats, msks, k0, block_size as int) =~= seq![blk]
                        + sync_blocks(st2, pats, msks, k, block_size as int));
                    assert(views(blocks@) + sync_blocks(st2, pats, msks, k, block_size as int)
                        =~= views(old_blocks) + sync_blocks(
                        st,
                        pats,
                        msks,
                        k0,
                        block_size as int,
                    ));
                }
            },
            _ => {
                proof {
                    assert(sync_blocks(st, pats, msks, k0, block_size as int) =~= Seq::<
                        Seq<u8>,
                    >::empty());
                    assert(views(blocks@) =~= views(blocks@) + Seq::<Seq<u8>>::empty());
                }
                break;
            },
        }
    }
    blocks
}

} // verus!
