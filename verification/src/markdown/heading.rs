//! Heading levels.
use vstd::prelude::*;

verus! {

/// Level of a Markdown heading, from `#` (H1) to `######` (H6).
#[derive(Clone, Copy, Debug, PartialEq, Eq, Structural)]
pub enum HeadingLevel {
    H1,
    H2,
    H3,
    H4,
    H5,
    H6,
}

/// The number of a heading level (1 to 6).
pub open spec fn heading_number(level: HeadingLevel) -> int {
    match level {
        HeadingLevel::H1 => 1,
        HeadingLevel::H2 => 2,
        HeadingLevel::H3 => 3,
        HeadingLevel::H4 => 4,
        HeadingLevel::H5 => 5,
        HeadingLevel::H6 => 6,
    }
}

/// Converts a heading level into its number (1 to 6).
pub fn heading_level_to_int(level: HeadingLevel) -> (res: i32)
    ensures
        res == heading_number(level),
        1 <= res <= 6,
{
    match level {
        HeadingLevel::H1 => 1,
        HeadingLevel::H2 => 2,
        HeadingLevel::H3 => 3,
        HeadingLevel::H4 => 4,
        HeadingLevel::H5 => 5,
        HeadingLevel::H6 => 6,
    }
}

/// Different heading levels have different numbers, and each number is
/// one more than the level above it: H1..H6 are numbered 1..6 in order.
pub proof fn lemma_heading_numbers_distinct(a: HeadingLevel, b: HeadingLevel)
    ensures
        heading_number(a) == heading_number(b) ==> a == b,
        1 <= heading_number(a) <= 6,
        heading_number(HeadingLevel::H1) == 1,
        heading_number(a) < 6 ==> exists|c: HeadingLevel| heading_number(c) == heading_number(a) + 1,
{
    if heading_number(a) < 6 {
        let c = match a {
            HeadingLevel::H1 => HeadingLevel::H2,
            HeadingLevel::H2 => HeadingLevel::H3,
            HeadingLevel::H3 => HeadingLevel::H4,
            HeadingLevel::H4 => HeadingLevel::H5,
            _ => HeadingLevel::H6,
        };
        assert(heading_number(c) == heading_number(a) + 1);
    }
}

} // verus!
