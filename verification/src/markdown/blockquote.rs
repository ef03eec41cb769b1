//! Blockquote text formatting.
use vstd::prelude::*;
use crate::text::{trim, trim_str};

verus! {

/// Cleans raw blockquote text: leading and trailing whitespace is removed.
pub fn clean_blockquote_text(text: &str) -> (res: String)
    ensures
        res@ == trim(text@),
{
    trim_str(text)
}

} // verus!
