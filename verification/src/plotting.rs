//! The layout of the report: three lines, each a label and a number.

use vstd::prelude::*;
use vstd::string::*;

verus! {

/// The report on a series: the final altitude, the total ascent and the total
/// descent, each on a line of its own behind its label, with no line break
/// after the last.
pub open spec fn report_text(
    altitude: Seq<char>,
    total_ascent: Seq<char>,
    total_descent: Seq<char>,
) -> Seq<char> {
    "altitude: "@ + altitude + "\ntotal_ascent: "@ + total_ascent + "\ntotal_descent: "@
        + total_descent
}

/// Lays out the report from the three numbers, each given as it is to be
/// shown.
pub fn report(altitude: &str, total_ascent: &str, total_descent: &str) -> (text: String)
    ensures
        text@ == report_text(altitude@, total_ascent@, total_descent@),
{
    String::from_str("altitude: ").concat(altitude).concat("\ntotal_ascent: ").concat(
        total_ascent,
    ).concat("\ntotal_descent: ").concat(total_descent)
}

} // verus!
