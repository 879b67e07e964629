//! Number literals, which nom reads.

use crate::text::is_proper_suffix;
use vstd::prelude::*;

verus! {

/// What a scan for a number at the start of a text finds, as a mathematical value.
pub enum Scan {
    /// A number, with the text after it and the bits of its 32-bit IEEE 754 value.
    Matched { rest: Seq<char>, bits: u32 },
    /// The text does not begin with a number.
    Absent,
    /// The text begins with a number that breaks off: an exponent mark with no digits.
    Malformed,
}

/// What a scan for a number at the start of a text finds.
#[derive(Debug, Clone, Copy, PartialEq, Eq)]
pub enum NumberScan<'a> {
    /// A number, with the text after it and the bits of its 32-bit IEEE 754 value.
    Matched(&'a str, u32),
    /// The text does not begin with a number.
    Absent,
    /// The text begins with a number that breaks off: an exponent mark with no digits.
    Malformed,
}

impl View for NumberScan<'_> {
    type V = Scan;

    open spec fn view(&self) -> Scan {
        match self {
            NumberScan::Matched(rest, bits) => Scan::Matched { rest: rest@, bits: *bits },
            NumberScan::Absent => Scan::Absent,
            NumberScan::Malformed => Scan::Malformed,
        }
    }
}

/// What nom's `float` makes of `input`. The library does not say how nom reads a
/// number; it says what it does with the answer.
pub uninterp spec fn float_scan(input: Seq<char>) -> Scan;

/// The scan as the grammar uses it: a match counts only where it consumed text.
/// With nom it always has, so this is `float_scan`.
pub open spec fn scan_at(input: Seq<char>) -> Scan {
    match float_scan(input) {
        Scan::Matched { rest, bits } => if is_proper_suffix(rest, input) {
            Scan::Matched { rest, bits }
        } else {
            Scan::Absent
        },
        other => other,
    }
}

/// Calls `nom::number::complete::float` on `input`.
///
/// Trusted, not proved: the answer depends on `input` alone; a match hands back
/// what is left of `input` after the number, which is shorter than `input`, and
/// the bits of the value; an `Err::Failure`, which nom gives for an exponent
/// mark without digits, is told apart from its other errors.
#[verifier::external_body]
pub(crate) fn scan_float(input: &str) -> (scan: NumberScan<'_>)
    ensures
        scan@ == float_scan(input@),
        scan matches NumberScan::Matched(rest, _) ==> is_proper_suffix(rest@, input@),
{
    match nom::number::complete::float::<&str, nom::error::Error<&str>>(input) {
        Ok((rest, value)) => NumberScan::Matched(rest, value.to_bits()),
        Err(nom::Err::Failure(_)) => NumberScan::Malformed,
        Err(nom::Err::Error(_)) => NumberScan::Absent,
        Err(nom::Err::Incomplete(_)) => NumberScan::Absent,
    }
}

} // verus!
