//! Configuration and text helpers of the command line tools.
pub mod diff;
pub mod filter;
pub mod frames;
pub mod info;

use vstd::prelude::*;
use vstd::string::{StringExecFns, StringSliceAdditionalSpecFns};

verus! {

/// Reed-Solomon configuration of a framing configuration file.
#[derive(Debug, Clone, Copy, PartialEq, Eq, Structural)]
pub struct RS {
    pub interleave: usize,
    pub virtualfill: usize,
}

/// The kinds of frames the tools decode.
#[derive(Clone, Copy, Debug, PartialEq, Eq, Structural)]
pub enum FrameType {
    AOS,
}

/// A framing configuration: the attached sync marker (the standard one if not
/// given), spacecraft, frame type and length, pseudo-noise and Reed-Solomon.
#[derive(Debug, Clone)]
pub struct Config {
    pub marker: Option<Vec<u8>>,
    pub scid: u16,
    pub frame_type: FrameType,
    pub length: usize,
    pub pn: bool,
    pub rs: Option<RS>,
}

/// Time code formats packets can be summarized with.
#[derive(Debug, Clone, Copy, PartialEq, Eq, Structural)]
pub enum TCFormat {
    Cds,
    /// No time code: packets are not timed.
    NoFormat,
}

impl TCFormat {
    /// Every format, in the order the tools list them.
    pub fn value_variants() -> (v: Vec<TCFormat>)
        ensures
            v@ == seq![TCFormat::Cds, TCFormat::NoFormat],
    {
        vec![TCFormat::Cds, TCFormat::NoFormat]
    }

    /// The name of the format on the command line.
    pub fn name(&self) -> (s: &'static str)
        ensures
            s@ == match self {
                TCFormat::Cds => "cds"@,
                TCFormat::NoFormat => "none"@,
            },
    {
        proof {
            reveal_strlit("cds");
            reveal_strlit("none");
        }
        match self {
            TCFormat::Cds => "cds",
            TCFormat::NoFormat => "none",
        }
    }
}

/// Output formats of packet summaries.
#[derive(Clone, Copy, Debug, PartialEq, Eq, Structural)]
pub enum SummaryFormat {
    JSON,
    TXT,
}

/// `n` spaces.
pub open spec fn spaces(n: int) -> Seq<char> {
    Seq::new(if n < 0 {
        0
    } else {
        n as nat
    }, |i: int| ' ')
}

/// Number of spaces that pad a text of `len` bytes to `width`: none if it is at
/// least that wide already.
pub open spec fn padding(width: usize, len: int) -> int {
    if width < len {
        0
    } else {
        width - len
    }
}

fn push_spaces(s: &mut String, n: usize)
    ensures
        final(s)@ == old(s)@ + spaces(n as int),
{
    let mut i: usize = 0;
    while i < n
        invariant
            i <= n,
            s@ == old(s)@ + spaces(i as int),
        decreases n - i,
    {
        s.append(" ");
        proof {
            reveal_strlit(" ");
            assert(old(s)@ + spaces(i as int) + " "@ =~= old(s)@ + spaces(i + 1));
        }
        i = i + 1;
    }
}

/// `v` with spaces before it up to a length of `num` bytes.
pub fn left_pad(num: usize, v: &str) -> (s: String)
    ensures
        s@ == spaces(padding(num, v.len() as int)) + v@,
{
    let len = v.len();
    let pad = if num < len {
        0
    } else {
        num - len
    };
    assert(pad == padding(num, v.len() as int));
    let mut s = String::new();
    push_spaces(&mut s, pad);
    assert(s@ =~= spaces(pad as int));
    s.append(v);
    s
}

/// `v` with spaces after it up to a length of `num` bytes.
pub fn right_pad(num: usize, v: &str) -> (s: String)
    ensures
        s@ == v@ + spaces(padding(num, v.len() as int)),
{
    let len = v.len();
    let pad = if num < len {
        0
    } else {
        num - len
    };
    assert(pad == padding(num, v.len() as int));
    let mut s = String::new();
    s.append(v);
    assert(s@ =~= v@);
    push_spaces(&mut s, pad);
    s
}

/// `parts` one after the other with `sep` between each two.
pub open spec fn joined(parts: Seq<Seq<char>>, sep: Seq<char>) -> Seq<char>
    decreases parts.len(),
{
    if parts.len() == 0 {
        seq![]
    } else if parts.len() == 1 {
        parts[0]
    } else {
        joined(parts.drop_last(), sep) + sep + parts.last()
    }
}

/// The strings of `parts` joined by `sep`.
pub fn join(parts: &Vec<String>, sep: &str) -> (s: String)
    ensures
        s@ == joined(parts@.map_values(|p: String| p@), sep@),
{
    let ghost views = parts@.map_values(|p: String| p@);
    let mut s = String::new();
    let mut i: usize = 0;
    while i < parts.len()
        invariant
            i <= parts@.len(),
            views == parts@.map_values(|p: String| p@),
            s@ == joined(views.subrange(0, i as int), sep@),
        decreases parts@.len() - i,
    {
        proof {
            assert(views.subrange(0, i as int + 1).drop_last() =~= views.subrange(0, i as int));
        }
        if i > 0 {
            s.append(sep);
        } else {
            proof {
                assert(Seq::<char>::empty() + parts@[0]@ =~= parts@[0]@);
            }
        }
        s.append(parts[i].as_str());
        i = i + 1;
    }
    proof {
        assert(views.subrange(0, parts@.len() as int) =~= views);
    }
    s
}

/// The apid order of a named ordering; `jpss-viirs` is the only name known.
pub fn apid_order(name: &str) -> (r: Option<Vec<u16>>)
    ensures
        name@ == "jpss-viirs"@ ==> (r matches Some(v) && v@ == seq![826u16, 821u16]),
        name@ != "jpss-viirs"@ ==> r is None,
{
    let known = String::from_str("jpss-viirs");
    let given = String::from_str(name);
    if given == known {
        Some(vec![826, 821])
    } else {
        None
    }
}

} // verus!
