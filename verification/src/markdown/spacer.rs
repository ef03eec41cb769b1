//! Vertical gaps between Markdown blocks.
use vstd::prelude::*;
use crate::text::{chars_of, count_char, count_char_in};

verus! {

/// Blank lines that `newlines` consecutive line breaks make: one fewer than
/// the line breaks, and never negative.
pub open spec fn blank_lines_for(newlines: nat) -> int {
    if newlines == 0 {
        0
    } else {
        newlines - 1
    }
}

/// Number of blank lines in a slice of Markdown source: `N` line breaks give
/// `N - 1` blank lines.
pub fn calculate_blank_lines(slice: &str) -> (res: i32)
    requires
        count_char(slice@, '\n') <= i32::MAX,
    ensures
        res == blank_lines_for(count_char(slice@, '\n')),
{
    let v = chars_of(slice);
    let n = count_char_in(&v, '\n');
    if n == 0 {
        0
    } else {
        (n - 1) as i32
    }
}

} // verus!
