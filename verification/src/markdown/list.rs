//! List item prefixes.
use vstd::prelude::*;
use crate::text::{decimal, decimal_of_i32, string_from_chars};

verus! {

/// Prefix of the ordered list item numbered `index`: its decimal number and a
/// dot. The same decimal numbering is used at every depth.
pub open spec fn ordered_prefix(index: i32) -> Seq<char> {
    decimal(index as int).push('.')
}

/// Formats an ordered list prefix (`1.`, `2.`, ...) from the item's number.
pub fn format_ordered_prefix(index: i32, _depth: i32) -> (res: String)
    ensures
        res@ == ordered_prefix(index),
{
    let mut v = decimal_of_i32(index);
    v.push('.');
    string_from_chars(&v)
}

} // verus!
