//! Markdown bold delimiters, used to rebuild bold spans in rich text.
use vstd::prelude::*;

verus! {

/// Opening Markdown delimiter for bold text.
pub fn open_bold_tag() -> (res: &'static str)
    ensures
        res@ == "**"@,
{
    "**"
}

/// Closing Markdown delimiter for bold text.
pub fn close_bold_tag() -> (res: &'static str)
    ensures
        res@ == "**"@,
{
    "**"
}

} // verus!
