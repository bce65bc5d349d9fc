use vstd::prelude::*;
use vstd::slice::{slice_subrange, slice_to_vec};
use crate::framing::reed_solomon::Integrity;

verus! {

/// Spacecraft identifier.
pub type Scid = u16;

/// Virtual channel identifier.
pub type Vcid = u16;

/// Contents of a valid VCDU header.
#[derive(Clone, Copy, Debug, PartialEq, Eq, Structural)]
pub struct VCDUHeader {
    pub version: u8,
    pub scid: Scid,
    pub vcid: Vcid,
    pub counter: u32,
    pub replay: bool,
    pub cycle: bool,
    pub counter_cycle: u8,
}

/// The first two header bytes as one big-endian word.
pub open spec fn be_u16(b0: u8, b1: u8) -> u16 {
    (b0 as u16 * 256 + b1 as u16) as u16
}

/// The header that the first six bytes of `dat` encode.
pub open spec fn spec_vcdu_header(dat: Seq<u8>) -> VCDUHeader
    recommends
        dat.len() >= 6,
{
    let x = be_u16(dat[0], dat[1]);
    VCDUHeader {
        version: (dat[0] >> 6u8) & 3u8,
        scid: (x >> 6u16) & 0xffu16,
        vcid: x & 0x3fu16,
        counter: ((dat[2] as u32) * 65536 + (dat[3] as u32) * 256 + dat[4] as u32) as u32,
        replay: (dat[5] >> 7u8) & 1u8 == 1u8,
        cycle: (dat[5] >> 6u8) & 1u8 == 1u8,
        counter_cycle: dat[5] & 0xfu8,
    }
}

impl VCDUHeader {
    /// VCDU header length in bytes
    pub const LEN: usize = 6;
    /// VCID indicating a fill frame
    pub const FILL: Vcid = 63;
    /// Maximum value for the zero-based VCDU counter before rollover;
    pub const COUNTER_MAX: u32 = 16777214;

    /// Construct from the provided bytes, or `None` if there are not enough bytes.
    pub fn decode(dat: &[u8]) -> (res: Option<Self>)
        ensures
            dat@.len() < 6 <==> res is None,
            res matches Some(h) ==> h == spec_vcdu_header(dat@),
    {
        if dat.len() < Self::LEN {
            return None;
        }
        let b0 = dat[0];
        let b1 = dat[1];
        let x: u16 = ((b0 as u16) << 8u16) | (b1 as u16);
        assert(x == be_u16(b0, b1)) by (bit_vector)
            requires
                x == ((b0 as u16) << 8u16) | (b1 as u16),
        ;
        let counter: u32 = (dat[2] as u32) * 65536 + (dat[3] as u32) * 256 + dat[4] as u32;
        Some(VCDUHeader {
            version: (b0 >> 6u8) & 3u8,
            scid: (x >> 6u16) & 0xffu16,
            vcid: x & 0x3fu16,
            counter,
            replay: (dat[5] >> 7u8) & 1u8 == 1u8,
            cycle: (dat[5] >> 6u8) & 1u8 == 1u8,
            counter_cycle: dat[5] & 0xfu8,
        })
    }
}

/// Loose representation of a single frame of data extracted from a Cadu.
#[derive(Clone, Debug)]
pub struct Frame {
    /// This frames header data
    pub header: VCDUHeader,
    /// Count of missing frame counts between this frame and the last received for this VCID.
    pub missing: u32,
    /// Integrity checking disposition, if peformed, [Option::None] otherwise.
    pub integrity: Option<Integrity>,
    /// Frame bytes. If integrity checking was performed and failed, e.g., not [Integrity::Ok] or
    /// [Integrity::Corrected], this will also include any check symbols and therefore potentially
    /// be longer than the expected frame length.
    pub data: Vec<u8>,
}

impl Frame {
    /// Decode `dat` into a `Frame`, or `None` if not enough bytes.
    pub fn decode(dat: Vec<u8>) -> (res: Option<Self>)
        ensures
            dat@.len() < 6 <==> res is None,
            res matches Some(f) ==> {
                &&& f.header == spec_vcdu_header(dat@)
                &&& f.missing == 0
                &&& f.integrity is None
                &&& f.data@ == dat@
            },
    {
        let header = VCDUHeader::decode(dat.as_slice());
        match header {
            Some(header) => Some(Frame { header, missing: 0, integrity: None, data: dat }),
            None => None,
        }
    }

    pub fn is_fill(&self) -> (r: bool)
        ensures
            r <==> self.header.vcid == VCDUHeader::FILL,
    {
        self.header.vcid == VCDUHeader::FILL
    }

    /// Extract the MPDU bytes from this frame, or `None` if not enough bytes.
    ///
    /// The MPDU is the frame data after the VCDU header and `izone_length` bytes of
    /// insert zone, up to the last `trailer_length` bytes of the frame.
    pub fn mpdu(&self, izone_length: usize, trailer_length: usize) -> (res: Option<MPDU>)
        ensures
            !(trailer_length <= self.data@.len() && 6 + izone_length <= self.data@.len() - trailer_length)
                ==> res is None,
            trailer_length <= self.data@.len() && 6 + izone_length <= self.data@.len() - trailer_length
                ==> {
                let body = self.data@.subrange(
                    6 + izone_length,
                    self.data@.len() - trailer_length,
                );
                &&& (res is None <==> body.len() < 2)
                &&& (res matches Some(m) ==> m.bytes() == body && m.first_header_spec()
                    == spec_first_header(body))
            },
    {
        let len = self.data.len();
        if trailer_length > len || izone_length > len - trailer_length || len - trailer_length - izone_length
            < VCDUHeader::LEN {
            return None;
        }
        let start: usize = VCDUHeader::LEN + izone_length;
        let end: usize = len - trailer_length;
        let data = slice_subrange(self.data.as_slice(), start, end);
        MPDU::decode(data)
    }
}

/// The first-header pointer that an MPDU beginning with `data` carries.
pub open spec fn spec_first_header(data: Seq<u8>) -> u16
    recommends
        data.len() >= 2,
{
    be_u16(data[0], data[1]) & 0x7ffu16
}

/// MPDU contained within a [Frame].
#[derive(Clone, Debug)]
pub struct MPDU {
    // the offset of the header minus 1
    first_header: u16,
    data: Vec<u8>,
}

impl MPDU {
    /// MPDU first-header pointer value indicating fill data
    pub const FILL: u16 = 0x7fe;
    /// MPDU first-header pointer value indicating this MPDU does not contain a packet
    /// primary header.
    pub const NO_HEADER: u16 = 0x7ff;

    /// The first-header pointer of this MPDU.
    pub closed spec fn first_header_spec(&self) -> u16 {
        self.first_header
    }

    /// All bytes of this MPDU, including its 2 byte header.
    pub closed spec fn bytes(&self) -> Seq<u8> {
        self.data@
    }

    /// Decode `data` into an MPDU, or `None` if there are fewer than 2 bytes.
    pub fn decode(data: &[u8]) -> (res: Option<Self>)
        ensures
            data@.len() < 2 <==> res is None,
            res matches Some(m) ==> m.bytes() == data@ && m.first_header_spec()
                == spec_first_header(data@),
    {
        if data.len() < 2 {
            return None;
        }
        let b0 = data[0];
        let b1 = data[1];
        let x: u16 = ((b0 as u16) << 8u16) | (b1 as u16);
        assert(x == be_u16(b0, b1)) by (bit_vector)
            requires
                x == ((b0 as u16) << 8u16) | (b1 as u16),
        ;
        Some(MPDU { first_header: x & 0x7ffu16, data: slice_to_vec(data) })
    }

    pub fn is_fill(&self) -> (r: bool)
        ensures
            r <==> self.first_header_spec() == MPDU::FILL,
    {
        self.first_header == MPDU::FILL
    }

    pub fn has_header(&self) -> (r: bool)
        ensures
            r <==> self.first_header_spec() != MPDU::NO_HEADER,
    {
        self.first_header != MPDU::NO_HEADER
    }

    /// Get the payload bytes from this MPDU, i.e., everything after the 2 byte
    /// MPDU header.
    pub fn payload(&self) -> (r: &[u8])
        requires
            self.bytes().len() >= 2,
        ensures
            r@ == self.bytes().subrange(2, self.bytes().len() as int),
    {
        slice_subrange(self.data.as_slice(), 2, self.data.len())
    }

    pub fn header_offset(&self) -> (r: usize)
        ensures
            r == self.first_header_spec(),
    {
        self.first_header as usize
    }
}

/// Whether [missing_frames] can compute a count for these counters without
/// arithmetic overflow.
pub open spec fn missing_frames_defined(cur: u32, last: u32) -> bool {
    cur == last || (last != u32::MAX && (cur == last + 1 || (last == VCDUHeader::COUNTER_MAX && cur
        == 0) || cur > last || last <= VCDUHeader::COUNTER_MAX))
}

/// The number of missing frame counts between `last` and `cur`.
pub open spec fn spec_missing_frames(cur: u32, last: u32) -> int {
    if cur == last {
        VCDUHeader::COUNTER_MAX as int
    } else if (last == VCDUHeader::COUNTER_MAX && cur == 0) || (last != VCDUHeader::COUNTER_MAX && cur == last
        + 1) {
        0
    } else if cur < last {
        VCDUHeader::COUNTER_MAX - last + cur
    } else {
        cur - last - 1
    }
}

/// Calculate the number of missing frame sequence counts.
///
/// `cur` is the current frame counter. `last` is the frame counter seen before `cur`.
/// `cur` will be greater than `last` except in the case of a wrap.
pub fn missing_frames(cur: u32, last: u32) -> (r: u32)
    requires
        missing_frames_defined(cur, last),
    ensures
        r == spec_missing_frames(cur, last),
        cur <= VCDUHeader::COUNTER_MAX && last <= VCDUHeader::COUNTER_MAX ==> r as int == (cur as int
            - last as int - 1) % (VCDUHeader::COUNTER_MAX as int + 1),
{
    if cur == last {
        return VCDUHeader::COUNTER_MAX;
    }
    let expected = if last == VCDUHeader::COUNTER_MAX {
        0
    } else {
        last + 1
    };

    if cur == expected {
        0
    } else {
        if cur < last {
            return VCDUHeader::COUNTER_MAX - last + cur;
        }
        cur - last - 1
    }
}

} // verus!
