//! CCSDS Reed-Solomon (255/223) integrity checking.
use vstd::prelude::*;
use vstd::slice::{slice_subrange, slice_to_vec};
use crate::error::{decimal, push_decimal, Error};
use crate::framing::frame::VCDUHeader;

verus! {

/// The possible integrity dispositions.
#[derive(Clone, Copy, Debug, PartialEq, Eq, Structural)]
pub enum Integrity {
    /// Data did not require correction.
    NoErrors,
    /// Data was successfully corrected.
    Corrected,
    /// Not correctable due to alg failure or too many errors
    Uncorrectable,
    /// Errors are present, but no correction was attempted.
    NotCorrected,
    /// The algorithm choose to skip performing integrity checks
    Skipped,
    /// Algorithm failed to run due to precondition, e.g., bad frame size
    Failed,
}

impl Integrity {
    /// Return `true` if [Self::NoErrors] or [Self::Corrected]. Any other value will return `false`.
    pub fn ok(&self) -> (r: bool)
        ensures
            r <==> (*self == Integrity::NoErrors || *self == Integrity::Corrected),
    {
        match self {
            Integrity::NoErrors | Integrity::Corrected => true,
            _ => false,
        }
    }
}

/// Symbols per Reed-Solomon code word (the same as `rs2::N`).
pub const N: usize = 255;

/// Number of bytes of parity for each Reed-Solomon message (the same as
/// `rs2::PARITY_LEN`).
pub const PARITY_LEN: usize = 32;

/// Whether a 255 byte code block (dual basis, last [PARITY_LEN] bytes parity) has
/// errors, as `rs2::has_errors` decides.
pub uninterp spec fn rs_has_errors(msg: Seq<u8>) -> bool;

/// What `rs2::correct_message` makes of a 255 byte code block: `None` if it is
/// uncorrectable, else whether it needed correction, the number of corrected
/// errors and the message.
pub uninterp spec fn rs_correction(msg: Seq<u8>) -> Option<(bool, i32, Seq<u8>)>;

/// The text of the error for a code block of length `len` that the algorithm
/// cannot correct with the given interleave.
pub open spec fn codeblock_error_text(len: usize, interleave: u8) -> Seq<char> {
    "codeblock len="@ + decimal(len as nat) + " cannot be corrected by this algorithm with interleave="@
        + decimal(interleave as nat)
}

/// Calls `rs2::has_errors`: whether the syndromes of the code block are non-zero.
/// Admitted only for 255-byte code blocks: on an empty slice `rs2` indexes past its
/// end and panics.
#[verifier::external_body]
fn has_errors(msg: &[u8]) -> (r: bool)
    requires
        msg@.len() == 255,
    ensures
        r == rs_has_errors(msg@),
{
    rs2::has_errors(msg)
}

/// Calls `rs2::correct_message`. Its source returns the state `Ok` with the input
/// as message when the syndromes are zero, `Corrected(n)` with a 255 byte message
/// after correcting `n` errors, of which it corrects at least one (non-zero
/// syndromes with no error position found end as uncorrectable) and at most
/// `PARITY_LEN / 2`, and `Uncorrectable` without a message otherwise, also for an
/// input that is not 255 bytes long.
#[verifier::external_body]
fn correct_message(msg: &[u8]) -> (r: Option<(bool, i32, Vec<u8>)>)
    ensures
        r is None <==> rs_correction(msg@) is None,
        r matches Some((c, n, m)) ==> {
            &&& rs_correction(msg@) == Some((c, n, m@))
            &&& m@.len() == 255
            &&& 0 <= n <= 16
            &&& c ==> 1 <= n
            &&& !c ==> n == 0 && m@ == msg@
        },
        msg@.len() != 255 ==> r is None,
{
    let block = rs2::correct_message(msg);
    match (block.state, block.message) {
        (rs2::RSState::Ok, Some(m)) => Some((false, 0, m)),
        (rs2::RSState::Corrected(n), Some(m)) => Some((true, n, m)),
        _ => None,
    }
}

/// The error text for a code block of `len` bytes that the algorithm cannot
/// correct with the given interleave.
pub(crate) fn codeblock_error(len: usize, interleave: u8) -> (s: String)
    ensures
        s@ == codeblock_error_text(len, interleave),
{
    let mut s = String::from_str("codeblock len=");
    push_decimal(&mut s, len);
    s.append(" cannot be corrected by this algorithm with interleave=");
    push_decimal(&mut s, interleave as usize);
    proof {
        assert(s@ =~= codeblock_error_text(len, interleave));
    }
    s
}

/// Byte `r` of message `m` of `data` interleaved with depth `interleave`.
pub open spec fn deinterleaved(data: Seq<u8>, interleave: int, m: int, r: int) -> u8 {
    if r * interleave + m < data.len() {
        data[r * interleave + m]
    } else {
        0
    }
}

/// Deinterleave an interleaved RS block (code block + check symbols): byte `j` of
/// `data` becomes byte `j / interleave` of message `j % interleave`; the rest of
/// each message is zero.
///
/// Ref: 130.1-G-2, Section 5.3
pub fn deinterleave(data: &[u8], interleave: u8) -> (zult: Vec<[u8; 255]>)
    requires
        interleave > 0,
        (data@.len() as int) % (interleave as int) == 0,
        data@.len() <= 255 * interleave,
    ensures
        zult@.len() == interleave,
        forall|m: int, r: int|
            0 <= m < interleave && 0 <= r < 255 ==> #[trigger] zult@[m]@[r] == deinterleaved(
                data@,
                interleave as int,
                m,
                r,
            ),
{
    let il = interleave as usize;
    let dlen = data.len();
    let rows = dlen / il;
    proof {
    vstd::arithmetic::div_mod::lemma_fundamental_div_mod(dlen as int, il as int);
    assert(il * rows <= dlen);
    assert(rows <= 255) by (nonlinear_arith)
        requires
            il * rows <= dlen,
            dlen <= 255 * il,
            il > 0,
    ;
    }
    let mut zult: Vec<[u8; 255]> = Vec::new();
    let mut m: usize = 0;
    while m < il
    invariant
        il == interleave,
        il > 0,
        rows == (data@.len() as int) / (il as int),
        rows <= 255,
        dlen == data@.len(),
        (data@.len() as int) % (il as int) == 0,
        m <= il,
        zult@.len() == m,
        forall|mm: int, r: int|
            0 <= mm < m && 0 <= r < 255 ==> #[trigger] zult@[mm]@[r] == deinterleaved(
                data@,
                il as int,
                mm,
                r,
            ),
    decreases il - m,
    {
    let mut msg = [0u8; 255];
    let mut r: usize = 0;
    while r < 255
        invariant
            il == interleave,
            il > 0,
            m < il,
            dlen == data@.len(),
            (data@.len() as int) % (il as int) == 0,
            rows == (data@.len() as int) / (il as int),
            rows <= 255,
            r <= 255,
            msg@.len() == 255,
            forall|rr: int| 0 <= rr < r ==> #[trigger] msg@[rr] == deinterleaved(
                data@,
                il as int,
                m as int,
                rr,
            ),
        decreases 255 - r,
    {
        proof {
            vstd::arithmetic::div_mod::lemma_fundamental_div_mod(data@.len() as int, il as int);
            assert(rows * il == il * rows) by (nonlinear_arith);
            if r < rows {
                vstd::arithmetic::mul::lemma_mul_inequality(r as int + 1, rows as int, il as int);
                assert((r as int + 1) * il == r * il + il) by (nonlinear_arith);
            } else {
                vstd::arithmetic::mul::lemma_mul_inequality(rows as int, r as int, il as int);
            }
        }
        if r < rows {
            msg[r] = data[r * il + m];
        } else {
            msg[r] = 0;
        }
        r = r + 1;
    }
    zult.push(msg);
    m = m + 1;
    }
    zult
}

/// CCSDS documented Reed-Solomon (223/255) Forward Error Correction.
///
/// # References
/// * [TM Synchronization and Channel Coding](https://ccsds.org/Pubs/131x0b5.pdf), Section 4
#[derive(Clone, Copy, Debug)]
pub struct DefaultReedSolomon {
    interleave: u8,
    virtual_fill: usize,
    parity_len: usize,
    detect: bool,
    correct: bool,
}

/// `out` with the bytes of message `idx` of interleave depth `il` replaced by `m`.
pub open spec fn write_message(out: Seq<u8>, m: Seq<u8>, idx: int, il: int) -> Seq<u8> {
    Seq::new(
    out.len(),
    |x: int|
        if x % il == idx && x / il < m.len() {
            m[x / il]
        } else {
            out[x]
        },
    )
}

/// Outcome of correcting messages `idx..` of `msgs`, with `count` corrections and
/// the messages before `idx` already written into `out`.
pub open spec fn rs_run(
    correct: bool,
    data: Seq<u8>,
    msgs: Seq<Seq<u8>>,
    il: int,
    vf: int,
    idx: int,
    count: int,
    out: Seq<u8>,
) -> (Integrity, Seq<u8>)
    decreases msgs.len() - idx,
{
    if idx < 0 || idx >= msgs.len() {
    (
        if count == 0 {
            Integrity::NoErrors
        } else {
            Integrity::Corrected
        },
        out.subrange(vf, out.len() - il * 32),
    )
    } else if !correct && rs_has_errors(msgs[idx]) {
    (Integrity::NotCorrected, data)
    } else {
    match rs_correction(msgs[idx]) {
        None => (Integrity::Uncorrectable, data.subrange(vf, data.len() as int)),
        Some((c, n, m)) => rs_run(
            correct,
            data,
            msgs,
            il,
            vf,
            idx + 1,
            count + if c {
                n as int
            } else {
                0
            },
            write_message(out, m, idx, il),
        ),
    }
    }
}

/// `vf` zero bytes followed by `dat`.
pub open spec fn with_fill(dat: Seq<u8>, vf: int) -> Seq<u8> {
    Seq::new(vf as nat, |i: int| 0u8) + dat
}

/// The messages of `data` at interleave depth `il`.
pub open spec fn spec_messages(data: Seq<u8>, il: int) -> Seq<Seq<u8>> {
    Seq::new(il as nat, |m: int| Seq::new(255, |r: int| deinterleaved(data, il, m, r)))
}

impl DefaultReedSolomon {
    pub closed spec fn interleave_view(&self) -> u8 {
    self.interleave
    }

    pub closed spec fn virtual_fill_view(&self) -> usize {
    self.virtual_fill
    }

    pub closed spec fn detect_view(&self) -> bool {
    self.detect
    }

    pub closed spec fn correct_view(&self) -> bool {
    self.correct
    }

    pub closed spec fn wf(&self) -> bool {
    self.parity_len == PARITY_LEN
    }

    /// Create a new instance with the given interleave that will by default use no virtual fill
    /// bytes and both detect and correct messages.
    ///
    /// # Arguments
    ///
    /// * `interleave` Interleaving depth. Each frame data to detect/correct must have a length
    /// such that `length = interleave * 255 + vritual_fill`.
    pub fn new(interleave: u8) -> (rs: Self)
    ensures
        rs.wf(),
        rs.interleave_view() == interleave,
        rs.virtual_fill_view() == 0,
        rs.detect_view(),
        rs.correct_view(),
    {
    Self { interleave, virtual_fill: 0, parity_len: PARITY_LEN, detect: true, correct: true }
    }

    /// Set the number of virtual fill bytes that should be added before performing the RS
    /// algorithm on each codeblock.
    ///
    /// Virtual fill are zero-bytes added to the start of the algorithm input data to pad it out to
    /// be the correct length for the interleave and algorithm requirement, e.g., `I=4: I * 255 =
    /// 1020`.
    pub fn with_virtual_fill(self, num: usize) -> (rs: Self)
    ensures
        rs.wf() == self.wf(),
        rs.interleave_view() == self.interleave_view(),
        rs.virtual_fill_view() == num,
        rs.detect_view() == self.detect_view(),
        rs.correct_view() == self.correct_view(),
    {
    let mut rs = self;
    rs.virtual_fill = num;
    rs
    }

    /// If `false` no data correction will be performed. Any data that has detected errors will get
    /// the integrity value [Integrity::NotCorrected] and check symbols will _NOT_ be removed.
    ///
    /// If `true` (default), correction will be attempted and check symbols will be removed if the
    /// integrity is one of [Integrity::NoErrors], [Integrity::Corrected], or [Integrity::Skipped].
    pub fn with_correction(self, enabled: bool) -> (rs: Self)
    ensures
        rs.wf() == self.wf(),
        rs.interleave_view() == self.interleave_view(),
        rs.virtual_fill_view() == self.virtual_fill_view(),
        rs.detect_view() == self.detect_view(),
        rs.correct_view() == enabled,
    {
    let mut rs = self;
    rs.correct = enabled;
    rs
    }

    /// When `false` no RS algorithm will be performed.
    ///
    /// Check symbols will be removed.
    ///
    /// This may be used when the data is known to be good to avoid the computation penalty of
    /// running the algorithm.
    pub fn with_detection(self, enabled: bool) -> (rs: Self)
    ensures
        rs.wf() == self.wf(),
        rs.interleave_view() == self.interleave_view(),
        rs.virtual_fill_view() == self.virtual_fill_view(),
        rs.detect_view() == enabled,
        rs.correct_view() == self.correct_view(),
    {
    let mut rs = self;
    rs.detect = enabled;
    rs
    }

    /// Whether a code block of `len` bytes, with `virtual_fill` zero bytes added,
    /// fills exactly `interleave` code words.
    pub fn can_correct(block: &[u8], interleave: u8, virtual_fill: usize) -> (r: bool)
    requires
        block@.len() + virtual_fill <= usize::MAX,
    ensures
        r <==> block@.len() + virtual_fill == 255 * interleave,
    {
    block.len() + virtual_fill == N * interleave as usize
    }

    /// The code block without its trailing check symbols.
    pub fn remove_parity<'a>(&self, cadu_dat: &'a [u8]) -> (r: &'a [u8])
    requires
        self.wf(),
        cadu_dat@.len() >= self.interleave_view() * 32,
    ensures
        r@ == cadu_dat@.subrange(0, cadu_dat@.len() - self.interleave_view() * 32),
    {
    let parity_len = self.interleave as usize * self.parity_len;
    slice_subrange(cadu_dat, 0, cadu_dat.len() - parity_len)
    }

}

/// Corrects (or, without correction, checks) the `interleave` messages of the code
/// block `data`, which begins with `vf` bytes of virtual fill, as [rs_run] says.
pub(crate) fn correct_codeblock(data: Vec<u8>, interleave: u8, vf: usize, correct: bool) -> (r: (
    Integrity,
    Vec<u8>,
))
    requires
    interleave > 0,
    data@.len() == 255 * interleave,
    vf <= 223 * interleave,
    ensures
    (r.0, r.1@) == rs_run(
        correct,
        data@,
        spec_messages(data@, interleave as int),
        interleave as int,
        vf as int,
        0,
        0,
        Seq::new(data@.len(), |i: int| 0u8),
    ),
    r.0 == Integrity::NoErrors ==> r.1@ == data@.subrange(vf as int, data@.len() - 32 * interleave),
    r.0 != Integrity::Skipped,
    (r.0 == Integrity::NoErrors || r.0 == Integrity::Corrected) ==> r.1@ == corrected_block(
        data@,
        interleave as int,
    ).subrange(vf as int, data@.len() - 32 * interleave),
{
    proof {
        lemma_rs_run_block(correct, data@, interleave as int, vf as int, 0, 0, Seq::new(data@.len(), |i: int| 0u8));
    }
    let il = interleave as usize;
    let ghost msgs = spec_messages(data@, il as int);
    let mut corrected: Vec<u8> = vec![0u8; data.len()];
    proof {
        assert(corrected@ =~= Seq::new(data@.len(), |i: int| 0u8));
        vstd::arithmetic::div_mod::lemma_mod_multiples_basic(255, il as int);
    }
    let mut num_corrected: i32 = 0;
    let messages = deinterleave(data.as_slice(), interleave);
    let mut idx: usize = 0;
    while idx < messages.len()
        invariant
            messages@.len() == il,
            il > 0,
            il == interleave,
            data@.len() == 255 * il,
            vf <= 223 * il,
            corrected@.len() == data@.len(),
            idx <= il,
            0 <= num_corrected <= 16 * idx,
            msgs == spec_messages(data@, il as int),
            forall|m: int| 0 <= m < il ==> #[trigger] messages@[m]@ == msgs[m],
            rs_run(correct, data@, msgs, il as int, vf as int, 0, 0, Seq::new(data@.len(), |i: int| 0u8))
                == rs_run(correct, data@, msgs, il as int, vf as int, idx as int, num_corrected as int, corrected@),
            num_corrected == 0 ==> forall|x: int|
                0 <= x < corrected@.len() && x % (il as int) < idx ==> #[trigger] corrected@[x] == data@[x],
        decreases il - idx,
    {
        let msg = messages[idx].as_slice();
        if !correct && has_errors(msg) {
            proof {
                assert(msg@ == msgs[idx as int]);
            }
            return (Integrity::NotCorrected, data);
        }
        match correct_message(msg) {
            None => {
                // Bail if there is any single uncorrectable message in this block; the
                // code block is handed back as it came, check symbols included
                return (Integrity::Uncorrectable, slice_to_vec(slice_subrange(data.as_slice(), vf, data.len())));
            },
            Some((c, num, message)) => {
                if c {
                    num_corrected = num_corrected + num;
                }
                let ghost before = corrected@;
                let mut j: usize = 0;
                while j < message.len()
                    invariant
                        message@.len() == 255,
                        il > 0,
                        il <= 255,
                        idx < il,
                        corrected@.len() == 255 * il,
                        j <= 255,
                        forall|x: int| 0 <= x < corrected@.len() ==> #[trigger] corrected@[x] == if x % (il as int) == idx && x / (il as int) < j {
                            message@[x / (il as int)]
                        } else {
                            before[x]
                        },
                    decreases 255 - j,
                {
                    proof {
                        vstd::arithmetic::mul::lemma_mul_inequality(j as int, 254, il as int);
                        assert(254 * il + idx < 255 * il) by (nonlinear_arith)
                            requires idx < il;
                        assert(j * il == il * j) by (nonlinear_arith);
                    }
                    let pos = idx + j * il;
                    corrected.set(pos, message[j]);
                    proof {
                        assert forall|x: int| 0 <= x < corrected@.len() implies #[trigger] corrected@[x] == if x % (il as int) == idx && x / (il as int) < j + 1 {
                            message@[x / (il as int)]
                        } else {
                            before[x]
                        } by {
                            vstd::arithmetic::div_mod::lemma_fundamental_div_mod(x, il as int);
                            vstd::arithmetic::div_mod::lemma_fundamental_div_mod_converse_mod(pos as int, il as int, j as int, idx as int);
                            vstd::arithmetic::div_mod::lemma_fundamental_div_mod_converse_div(pos as int, il as int, j as int, idx as int);
                            assert(j * il == il * j) by (nonlinear_arith);
                            if x % (il as int) == idx && x / (il as int) == j {
                                assert(x == pos);
                            }
                        }
                    }
                    j = j + 1;
                }
                proof {
                    assert(corrected@ =~= write_message(before, message@, idx as int, il as int));
                    if num_corrected == 0 {
                        assert(message@ == msgs[idx as int]);
                        assert forall|x: int|
                            0 <= x < corrected@.len() && x % (il as int) < idx + 1 implies #[trigger] corrected@[x]
                                == data@[x] by {
                            vstd::arithmetic::div_mod::lemma_fundamental_div_mod(x, il as int);
                            if x % (il as int) == idx {
                                let q = x / (il as int);
                                assert(q < 255 && q * il == il * q) by (nonlinear_arith)
                                    requires
                                        x == il * q + x % (il as int),
                                        0 <= x % (il as int),
                                        0 <= x < 255 * il,
                                        il > 0,
                                ;
                                assert(message@[q] == deinterleaved(data@, il as int, idx as int, q));
                            }
                        }
                    }
                }
            },
        }
        idx = idx + 1;
    }

    // The resulting buffer does not include the parity bytes
    let zult = slice_subrange(corrected.as_slice(), 0, corrected.len() - il * PARITY_LEN);
    // Remove any added virtual fill zeros
    let zult = slice_subrange(zult, vf, zult.len());
    proof {
        if num_corrected == 0 {
            assert(corrected@ =~= data@);
        }
    }
    if num_corrected == 0 {
        (Integrity::NoErrors, slice_to_vec(zult))
    } else {
        (Integrity::Corrected, slice_to_vec(zult))
    }
}

pub trait ReedSolomon {
    /// Whether [ReedSolomon::perform] can run on a code block of `len` bytes of a
    /// frame with virtual channel `vcid`.
    spec fn can_perform(&self, vcid: u16, len: int) -> bool;

    /// The outcome of [ReedSolomon::perform] on code block `cadu` of a frame with
    /// virtual channel `vcid`: the integrity and the frame data, or `None` if the
    /// algorithm fails to run.
    spec fn perform_outcome(&self, vcid: u16, cadu: Seq<u8>) -> Option<(Integrity, Seq<u8>)>;

    /// Perform this integrity check.
    ///
    /// `cadu_dat` must already be derandomized and be of expected length for this algorithm. This
    /// algorithm may also choose to skip performance of the algorithm, e.g., for VCID fill frames.
    ///
    /// The algorithm will remove any parity bytes such that the returned data is just the frame
    /// bytes.
    fn perform(&self, header: &VCDUHeader, cadu_dat: &[u8]) -> (r: Result<(Integrity, Vec<u8>), Error>)
        requires
            self.can_perform(header.vcid, cadu_dat@.len() as int),
        ensures
            r is Err <==> self.perform_outcome(header.vcid, cadu_dat@) is None,
            r matches Ok((i, v)) ==> self.perform_outcome(header.vcid, cadu_dat@) == Some((i, v@)),
    ;
}

/// Whether the algorithm, with interleave `il`, `vf` bytes of virtual fill and
/// detection as given, can run on a code block of `len` bytes of a frame of
/// virtual channel `vcid` without running out of bounds.
pub open spec fn rs_performable(il: int, vf: int, detect: bool, vcid: u16, len: int) -> bool {
    &&& len + vf <= usize::MAX
    &&& len + vf == 255 * il ==> {
        &&& vf <= 223 * il
        &&& (il == 0 ==> vcid == VCDUHeader::FILL || !detect)
    }
}

/// The outcome of the algorithm, with interleave `il`, `vf` bytes of virtual fill,
/// detection and correction as given, on code block `cadu` of a frame of virtual
/// channel `vcid`: the integrity and the frame data, or `None` if the length of
/// the code block does not fit the interleave.
pub open spec fn rs_outcome(
    il: int,
    vf: int,
    detect: bool,
    correct: bool,
    vcid: u16,
    cadu: Seq<u8>,
) -> Option<(Integrity, Seq<u8>)> {
    if cadu.len() + vf != 255 * il {
        None
    } else if vcid == VCDUHeader::FILL || !detect {
        Some((Integrity::Skipped, cadu.subrange(0, cadu.len() - il * 32)))
    } else {
        let data = with_fill(cadu, vf);
        Some(
            rs_run(
                correct,
                data,
                spec_messages(data, il),
                il,
                vf,
                0,
                0,
                Seq::new(data.len(), |i: int| 0u8),
            ),
        )
    }
}

/// A run that ends without an uncorrectable or uncorrected message yields the
/// buffer without the virtual fill before it and the check symbols after it.
pub(crate) proof fn lemma_rs_run_len(
    correct: bool,
    data: Seq<u8>,
    msgs: Seq<Seq<u8>>,
    il: int,
    vf: int,
    idx: int,
    count: int,
    out: Seq<u8>,
)
    requires
        0 <= vf,
        0 <= il,
        vf + il * 32 <= out.len(),
    ensures
        ({
            let (i, d) = rs_run(correct, data, msgs, il, vf, idx, count, out);
            (i == Integrity::NoErrors || i == Integrity::Corrected || i == Integrity::Skipped) ==> d.len()
                == out.len() - il * 32 - vf
        }),
    decreases msgs.len() - idx,
{
    if 0 <= idx < msgs.len() && !(!correct && rs_has_errors(msgs[idx])) {
        match rs_correction(msgs[idx]) {
            None => {},
            Some((c, n, m)) => {
                let next = write_message(out, m, idx, il);
                lemma_rs_run_len(
                    correct,
                    data,
                    msgs,
                    il,
                    vf,
                    idx + 1,
                    count + if c {
                        n as int
                    } else {
                        0
                    },
                    next,
                );
            },
        }
    }
}

/// Where the algorithm finds no errors, corrects them, or skips the check, the frame
/// data is the code block without its check symbols: `32 * interleave` bytes
/// shorter.
pub proof fn lemma_rs_frame_length(il: int, vf: int, detect: bool, correct: bool, vcid: u16, cadu: Seq<u8>)
    requires
        0 < il,
        0 <= vf <= 223 * il,
        cadu.len() + vf == 255 * il,
    ensures
        ({
            let (i, d) = rs_outcome(il, vf, detect, correct, vcid, cadu).unwrap();
            (i == Integrity::NoErrors || i == Integrity::Corrected || i == Integrity::Skipped)
                ==> d.len() == cadu.len() - 32 * il
        }),
{
    if !(vcid == VCDUHeader::FILL || !detect) {
        let data = with_fill(cadu, vf);
        assert(data.len() == 255 * il);
        assert(Seq::new(data.len(), |i: int| 0u8).len() == 255 * il);
        lemma_rs_run_len(
            correct,
            data,
            spec_messages(data, il),
            il,
            vf,
            0,
            0,
            Seq::new(data.len(), |i: int| 0u8),
        );
    }
}

/// The code block that correcting each of its code words gives: byte `x` is byte
/// `x / il` of the message that `rs2` makes of code word `x % il` (a message of 255
/// bytes, see [correct_message]; zero past its end or where there is none).
pub open spec fn corrected_block(data: Seq<u8>, il: int) -> Seq<u8> {
    Seq::new(
        data.len(),
        |x: int|
            match rs_correction(spec_messages(data, il)[x % il]) {
                Some((c, n, m)) => if x / il < m.len() {
                    m[x / il]
                } else {
                    0u8
                },
                None => 0u8,
            },
    )
}

/// A run from message `idx` on, whose buffer already holds the corrected bytes of
/// the messages before `idx` and zeros elsewhere, ends, where it ends clean or
/// corrected, with the corrected block between the fill and the check symbols.
proof fn lemma_rs_run_block(
    correct: bool,
    data: Seq<u8>,
    il: int,
    vf: int,
    idx: int,
    count: int,
    out: Seq<u8>,
)
    requires
        0 < il,
        0 <= idx <= il,
        data.len() == 255 * il,
        out.len() == data.len(),
        0 <= vf <= 223 * il,
        forall|x: int| 0 <= x < out.len() && x % il < idx ==> #[trigger] out[x] == corrected_block(data, il)[x],
        forall|x: int| 0 <= x < out.len() && x % il >= idx ==> #[trigger] out[x] == 0u8,
    ensures
        ({
            let (i, d) = rs_run(correct, data, spec_messages(data, il), il, vf, idx, count, out);
            (i == Integrity::NoErrors || i == Integrity::Corrected) ==> d == corrected_block(data, il).subrange(
                vf,
                data.len() - 32 * il,
            )
        }),
    decreases il - idx,
{
    let msgs = spec_messages(data, il);
    let cb = corrected_block(data, il);
    if idx == il {
        assert forall|x: int| 0 <= x < out.len() implies out[x] == cb[x] by {
            vstd::arithmetic::div_mod::lemma_mod_bound(x, il);
        }
        assert(out =~= cb);
    } else if !(!correct && rs_has_errors(msgs[idx])) {
        match rs_correction(msgs[idx]) {
            None => {},
            Some((c, n, m)) => {
                let next = write_message(out, m, idx, il);
                assert forall|x: int| 0 <= x < next.len() && x % il < idx + 1 implies #[trigger] next[x] == cb[x] by {
                    if x % il == idx {
                        assert(rs_correction(msgs[x % il]) == Some((c, n, m)));
                    }
                }
                lemma_rs_run_block(
                    correct,
                    data,
                    il,
                    vf,
                    idx + 1,
                    count + if c {
                        n as int
                    } else {
                        0
                    },
                    next,
                );
            },
        }
    }
}

/// Where the algorithm finds a code block clean or corrects it, the frame data is
/// the corrected code block (each code word replaced by the message `rs2` makes of
/// it) without the virtual fill before it and the check symbols after it.
pub proof fn lemma_rs_frame_is_corrected_block(
    il: int,
    vf: int,
    detect: bool,
    correct: bool,
    vcid: u16,
    cadu: Seq<u8>,
)
    requires
        0 < il,
        0 <= vf <= 223 * il,
        cadu.len() + vf == 255 * il,
    ensures
        ({
            let (i, d) = rs_outcome(il, vf, detect, correct, vcid, cadu).unwrap();
            (i == Integrity::NoErrors || i == Integrity::Corrected) ==> d == corrected_block(
                with_fill(cadu, vf),
                il,
            ).subrange(vf, 255 * il - 32 * il)
        }),
{
    if !(vcid == VCDUHeader::FILL || !detect) {
        let data = with_fill(cadu, vf);
        lemma_rs_run_block(correct, data, il, vf, 0, 0, Seq::new(data.len(), |k: int| 0u8));
    }
}

/// How a run from message `idx` on ends: an uncorrectable message hands the block
/// back without its fill, a message with errors while correction is off hands it
/// back whole, and a run ends clean or corrected only where every message from
/// `idx` on was corrected (and, with correction off, had no errors).
proof fn lemma_rs_run_kinds(
    correct: bool,
    data: Seq<u8>,
    msgs: Seq<Seq<u8>>,
    il: int,
    vf: int,
    idx: int,
    count: int,
    out: Seq<u8>,
)
    requires
        0 <= idx <= msgs.len(),
    ensures
        ({
            let (i, d) = rs_run(correct, data, msgs, il, vf, idx, count, out);
            &&& i == Integrity::NoErrors || i == Integrity::Corrected || i == Integrity::NotCorrected || i
                == Integrity::Uncorrectable
            &&& i == Integrity::Uncorrectable ==> d == data.subrange(vf, data.len() as int) && exists|k: int|
                idx <= k < msgs.len() && rs_correction(#[trigger] msgs[k]) is None
            &&& i == Integrity::NotCorrected ==> d == data && !correct && exists|k: int|
                idx <= k < msgs.len() && rs_has_errors(#[trigger] msgs[k])
            &&& (i == Integrity::NoErrors || i == Integrity::Corrected) ==> forall|k: int|
                idx <= k < msgs.len() ==> rs_correction(#[trigger] msgs[k]) is Some && (!correct ==> !rs_has_errors(
                    msgs[k],
                ))
        }),
    decreases msgs.len() - idx,
{
    if idx < msgs.len() && !(!correct && rs_has_errors(msgs[idx])) {
        match rs_correction(msgs[idx]) {
            None => {},
            Some((c, n, m)) => {
                lemma_rs_run_kinds(
                    correct,
                    data,
                    msgs,
                    il,
                    vf,
                    idx + 1,
                    count + if c {
                        n as int
                    } else {
                        0
                    },
                    write_message(out, m, idx, il),
                );
            },
        }
    }
}

/// The outcomes of the algorithm on a code block of a channel that it checks: a
/// block with a code word that cannot be corrected comes back as it came, check
/// symbols included; one with errors while correction is off comes back with its
/// virtual fill before it; and a block comes back clean or corrected only where
/// every code word (fill included) could be corrected, and had no errors if
/// correction is off.
pub proof fn lemma_rs_outcome_kinds(il: int, vf: int, detect: bool, correct: bool, vcid: u16, cadu: Seq<u8>)
    requires
        0 < il,
        0 <= vf,
        cadu.len() + vf == 255 * il,
        vcid != VCDUHeader::FILL,
        detect,
    ensures
        ({
            let (i, d) = rs_outcome(il, vf, detect, correct, vcid, cadu).unwrap();
            let msgs = spec_messages(with_fill(cadu, vf), il);
            &&& i == Integrity::NoErrors || i == Integrity::Corrected || i == Integrity::NotCorrected || i
                == Integrity::Uncorrectable
            &&& i == Integrity::Uncorrectable ==> d == cadu && exists|k: int|
                0 <= k < il && rs_correction(#[trigger] msgs[k]) is None
            &&& i == Integrity::NotCorrected ==> d == with_fill(cadu, vf) && !correct && exists|k: int|
                0 <= k < il && rs_has_errors(#[trigger] msgs[k])
            &&& (i == Integrity::NoErrors || i == Integrity::Corrected) ==> forall|k: int|
                0 <= k < il ==> rs_correction(#[trigger] msgs[k]) is Some && (!correct ==> !rs_has_errors(
                    msgs[k],
                ))
        }),
{
    let data = with_fill(cadu, vf);
    lemma_rs_run_kinds(correct, data, spec_messages(data, il), il, vf, 0, 0, Seq::new(data.len(), |k: int| 0u8));
    assert(data.subrange(vf, data.len() as int) =~= cadu);
}

impl ReedSolomon for DefaultReedSolomon {
    open spec fn can_perform(&self, vcid: u16, len: int) -> bool {
        &&& self.wf()
        &&& rs_performable(
            self.interleave_view() as int,
            self.virtual_fill_view() as int,
            self.detect_view(),
            vcid,
            len,
        )
    }

    open spec fn perform_outcome(&self, vcid: u16, cadu: Seq<u8>) -> Option<(Integrity, Seq<u8>)> {
        rs_outcome(
            self.interleave_view() as int,
            self.virtual_fill_view() as int,
            self.detect_view(),
            self.correct_view(),
            vcid,
            cadu,
        )
    }

    /// Performs the algorithm.
    ///
    /// Check symbols are removed if the integrity is [Integrity::NoErrors], [Integrity::Corrected],
    /// [Integrity::Skipped]. They are not removed for [Integrity::NotCorrected], [Integrity::Failed],
    /// or [Integrity::Uncorrectable].
    ///
    /// If correction is disabled by passing `false` to [DefaultReedSolomon::with_correction] then the algorithm
    /// detects errors but does not perform the correction. If errors are detected the integrity
    /// will be [Integrity::NotCorrected]. This can save a significant amount of CPU.
    ///
    /// In the case detection is disabled by passing `false` to [DefaultReedSolomon::with_detection] then neither
    /// the detection or correction are performed, however, check symbols are still removed.
    ///
    /// A block found free of errors, like a skipped one, is handed back as it came
    /// without its check symbols.
    fn perform(&self, header: &VCDUHeader, cadu_dat: &[u8]) -> (r: Result<(Integrity, Vec<u8>), Error>)
        ensures
            r matches Ok((i, v)) ==> ((i == Integrity::NoErrors || i == Integrity::Skipped) ==> v@
                == cadu_dat@.subrange(0, cadu_dat@.len() - 32 * self.interleave_view())),
            r matches Ok((i, v)) ==> ((i == Integrity::NoErrors || i == Integrity::Corrected) ==> v@
                == corrected_block(with_fill(cadu_dat@, self.virtual_fill_view() as int), self.interleave_view() as int).subrange(
                self.virtual_fill_view() as int,
                cadu_dat@.len() + self.virtual_fill_view() - 32 * self.interleave_view(),
            )),
    {
        if !DefaultReedSolomon::can_correct(cadu_dat, self.interleave, self.virtual_fill) {
            return Err(
                Error::IntegrityAlgorithm(codeblock_error(cadu_dat.len(), self.interleave)),
            );
        }
        if header.vcid == VCDUHeader::FILL || !self.detect {
            return Ok((Integrity::Skipped, slice_to_vec(self.remove_parity(cadu_dat))));
        }

        let vf = self.virtual_fill;
        // If using virtual fill, it gets added to the start of our CADU data
        let mut data: Vec<u8> = vec![0u8; vf];
        let mut i: usize = 0;
        while i < cadu_dat.len()
            invariant
                i <= cadu_dat@.len(),
                data@ =~= with_fill(cadu_dat@.subrange(0, i as int), vf as int),
            decreases cadu_dat@.len() - i,
        {
            data.push(cadu_dat[i]);
            i = i + 1;
        }
        assert(cadu_dat@.subrange(0, cadu_dat@.len() as int) =~= cadu_dat@);
        let ghost filled = data@;
        let (integrity, out) = correct_codeblock(data, self.interleave, vf, self.correct);
        proof {
            assert(filled.subrange(vf as int, filled.len() - 32 * self.interleave) =~= cadu_dat@.subrange(
                0,
                cadu_dat@.len() - 32 * self.interleave,
            ));
        }
        Ok((integrity, out))
    }
}

} // verus!

