//! Table column alignment.
use vstd::prelude::*;

verus! {

/// Alignment of a table column, as a Markdown table's delimiter row gives it
/// (`Unspecified` where the row sets none).
#[derive(Clone, Copy, Debug, PartialEq, Eq, Structural)]
pub enum Alignment {
    Unspecified,
    Left,
    Center,
    Right,
}

/// Integer code of an alignment: 0 for left or none, 1 for center, 2 for right.
pub open spec fn alignment_code(align: Alignment) -> int {
    match align {
        Alignment::Center => 1,
        Alignment::Right => 2,
        _ => 0,
    }
}

/// Converts a column alignment into its integer code.
pub fn alignment_to_int(align: Alignment) -> (res: i32)
    ensures
        res == alignment_code(align),
{
    match align {
        Alignment::Center => 1,
        Alignment::Right => 2,
        _ => 0,
    }
}

} // verus!
