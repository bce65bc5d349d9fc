//! Time code fields of the CCSDS Time Code Formats (301.0-B-4): day segmented
//! (CDS) and unsegmented (CUC) codes and their p-fields.
pub mod cds;
pub mod cuc;

use vstd::prelude::*;

verus! {

/// Errors decoding time codes.
#[derive(Clone, Debug)]
pub enum Error {
    Config(String),
    InvalidPField(String),
    Other(String),
    NotEnoughData,
}


/// A time code layout as a spacecraft's configuration gives it; fields left out
/// take their defaults. The epoch stays with the caller.
#[derive(Clone, Debug)]
pub enum TimecodeConfig {
    Cds { day_length: Option<usize>, submillis_length: Option<usize>, self_identifying: Option<bool> },
    Cuc {
        basic_length: Option<usize>,
        fine_length: Option<usize>,
        fine_nanos: Option<u32>,
        self_identifying: Option<bool>,
    },
}

/// The decoder a [TimecodeConfig] selects, with its field lengths.
#[derive(Clone, Copy, Debug, PartialEq, Eq, Structural)]
pub enum DecoderChoice {
    /// CDS time codes that begin with their p-field
    CdsPField,
    /// CDS time codes of `num_day` day and `num_submillis` sub-millisecond bytes
    Cds { num_day: usize, num_submillis: usize },
    /// CUC time codes that begin with their p-field
    CucPField,
    /// CUC time codes of `num_basic` basic time bytes and `num_fine` fine time bytes,
    /// one fine time unit being `fine_nanos` nanoseconds
    Cuc { num_basic: usize, num_fine: usize, fine_nanos: u32 },
}

/// The value of an optional setting, or its default.
pub open spec fn or_default<T>(o: Option<T>, d: T) -> T {
    match o {
        Some(v) => v,
        None => d,
    }
}

/// The decoder `tc` selects: a p-field decoder where the codes identify themselves,
/// else one of the configured lengths, absent lengths counting as 0 and an absent
/// fine time unit as 1 nanosecond (without fine time bytes there is no unit: 0).
pub open spec fn spec_choice(tc: TimecodeConfig) -> Option<DecoderChoice> {
    match tc {
        TimecodeConfig::Cds { day_length, submillis_length, self_identifying } => if or_default(
            self_identifying,
            false,
        ) {
            Some(DecoderChoice::CdsPField)
        } else {
            Some(
                DecoderChoice::Cds {
                    num_day: or_default(day_length, 0),
                    num_submillis: or_default(submillis_length, 0),
                },
            )
        },
        TimecodeConfig::Cuc { basic_length, fine_length, fine_nanos, self_identifying } => if or_default(
            self_identifying,
            false,
        ) {
            Some(DecoderChoice::CucPField)
        } else if or_default(basic_length, 0) == 0 {
            None
        } else {
            Some(
                DecoderChoice::Cuc {
                    num_basic: or_default(basic_length, 0),
                    num_fine: or_default(fine_length, 0),
                    fine_nanos: match fine_length {
                        Some(f) => or_default(fine_nanos, 1),
                        None => 0,
                    },
                },
            )
        },
    }
}

/// Choose the decoder a time code configuration describes.
///
/// # Errors
/// [Error::Config] for a CUC layout that is not self-identifying and has no basic
/// time bytes.
pub fn choose_decoder(tc: &TimecodeConfig) -> (r: Result<DecoderChoice, Error>)
    ensures
        match spec_choice(*tc) {
            Some(c) => r == Ok::<DecoderChoice, Error>(c),
            None => r matches Err(Error::Config(s)) && s@ == "CUC timecode basic length must be >= 1"@,
        },
{
    match tc {
        TimecodeConfig::Cds { day_length, submillis_length, self_identifying } => {
            let self_id = match self_identifying {
                Some(b) => *b,
                None => false,
            };
            if self_id {
                Ok(DecoderChoice::CdsPField)
            } else {
                let num_day = match day_length {
                    Some(n) => *n,
                    None => 0,
                };
                let num_submillis = match submillis_length {
                    Some(n) => *n,
                    None => 0,
                };
                Ok(DecoderChoice::Cds { num_day, num_submillis })
            }
        },
        TimecodeConfig::Cuc { basic_length, fine_length, fine_nanos, self_identifying } => {
            let self_id = match self_identifying {
                Some(b) => *b,
                None => false,
            };
            if self_id {
                return Ok(DecoderChoice::CucPField);
            }
            let num_basic = match basic_length {
                Some(n) => *n,
                None => 0,
            };
            if num_basic == 0 {
                return Err(Error::Config(String::from_str("CUC timecode basic length must be >= 1")));
            }
            let (num_fine, nanos) = match fine_length {
                Some(f) => (
                    *f,
                    match fine_nanos {
                        Some(n) => *n,
                        None => 1,
                    },
                ),
                None => (0, 0),
            };
            Ok(DecoderChoice::Cuc { num_basic, num_fine, fine_nanos: nanos })
        },
    }
}

} // verus!
