//! Markdown italic delimiters, used to rebuild italic spans in rich text.
use vstd::prelude::*;

verus! {

/// Opening Markdown delimiter for italic text.
pub fn open_italic_tag() -> (res: &'static str)
    ensures
        res@ == "*"@,
{
    "*"
}

/// Closing Markdown delimiter for italic text.
pub fn close_italic_tag() -> (res: &'static str)
    ensures
        res@ == "*"@,
{
    "*"
}

} // verus!
