//! Paragraph text formatting.
use vstd::prelude::*;

verus! {

/// Paragraph text as it is rendered: an owned copy of the input.
pub fn clean_paragraph_text(text: &str) -> (res: String)
    ensures
        res@ == text@,
{
    text.to_owned()
}

} // verus!
