//! Numbers as they are shown to a reader: grouped by thousands, or as a
//! percentage. The writing itself is done by the `numfmt` crate.
use vstd::prelude::*;

verus! {

/// The pattern for plain numbers: no scaling, thousands parted by a space.
pub const GROUPED_PATTERN: &'static str = "[n/ ]";

/// The pattern for percentages.
pub const PERCENTAGE_PATTERN: &'static str = "[.2%]";

/// The number of decimal places that both patterns are used with.
pub const DISPLAY_DECIMALS: u8 = 2;

/// What `numfmt` writes for `number` with a formatter parsed from `pattern`
/// and set to `decimals` decimal places; `None` where it refuses the pattern.
pub uninterp spec fn numfmt_text(pattern: Seq<char>, decimals: u8, number: i64) -> Option<
    Seq<char>,
>;

/// Parses `pattern` with `numfmt::Formatter`'s `FromStr`, sets the precision
/// with `Formatter::precision` to `Precision::Decimals(decimals)` and formats
/// `number` with `Formatter::fmt2`. Nothing is claimed of the text but that
/// it is the one `numfmt` gives for these three values, and that there is
/// none exactly where `numfmt` rejects the pattern.
#[verifier::external_body]
fn numfmt_render(pattern: &str, decimals: u8, number: i64) -> (text: Option<String>)
    ensures
        text.is_some() == numfmt_text(pattern@, decimals, number).is_some(),
        text.is_some() ==> text.unwrap()@ == numfmt_text(pattern@, decimals, number).unwrap(),
{
    match pattern.parse::<numfmt::Formatter>() {
        Ok(formatter) => Some(
            formatter.precision(numfmt::Precision::Decimals(decimals)).fmt2(number).to_owned(),
        ),
        Err(_) => None,
    }
}

/// A number that can be written for a reader.
pub trait FormatForDisplay {
    /// The number with its thousands parted by spaces.
    fn format_for_display(&self) -> Option<String>;

    /// The number as a percentage.
    fn format_for_display_percentage(&self) -> Option<String>;
}

/// Whether `text` is the writing `expected`, or both are absent.
pub open spec fn writes(text: Option<String>, expected: Option<Seq<char>>) -> bool {
    match text {
        Some(written) => expected == Some(written@),
        None => expected.is_none(),
    }
}

impl FormatForDisplay for i64 {
    fn format_for_display(&self) -> (text: Option<String>)
        ensures
            writes(text, numfmt_text(GROUPED_PATTERN@, DISPLAY_DECIMALS, *self)),
    {
        numfmt_render(GROUPED_PATTERN, DISPLAY_DECIMALS, *self)
    }

    fn format_for_display_percentage(&self) -> (text: Option<String>)
        ensures
            writes(text, numfmt_text(PERCENTAGE_PATTERN@, DISPLAY_DECIMALS, *self)),
    {
        numfmt_render(PERCENTAGE_PATTERN, DISPLAY_DECIMALS, *self)
    }
}

} // verus!
