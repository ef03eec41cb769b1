//! Inline code formatting: CommonMark backtick delimiters wrapped in a
//! `<font color="...">` tag carrying the theme's code color.
use vstd::prelude::*;
use crate::text::{chars_of, contains_char, extend_chars, string_from_chars};

verus! {

/// Default inline code text color (the theme's code text color, `#79c0ff`).
pub const DEFAULT_CODE_COLOR_HEX: &'static str = "#79c0ff";

/// Markup for an inline code snippet `code` shown in `color`: single
/// backticks, or double backticks padded by spaces when the snippet itself
/// holds a backtick.
pub open spec fn inline_code_markup(code: Seq<char>, color: Seq<char>) -> Seq<char> {
    if code.contains('`') {
        "<font color=\""@ + color + "\">`` "@ + code + " ``</font>"@
    } else {
        "<font color=\""@ + color + "\">`"@ + code + "`</font>"@
    }
}

/// Opening CommonMark delimiter for inline code.
pub fn open_code_tag() -> (res: &'static str)
    ensures
        res@ == "`"@,
{
    "`"
}

/// Closing CommonMark delimiter for inline code.
pub fn close_code_tag() -> (res: &'static str)
    ensures
        res@ == "`"@,
{
    "`"
}

/// Formats an inline code snippet in backticks inside a `<font color="...">` tag.
pub fn format_inline_code_with_color(code: &str, color_hex: &str) -> (res: String)
    ensures
        res@ == inline_code_markup(code@, color_hex@),
{
    let mut v = chars_of("<font color=\"");
    extend_chars(&mut v, color_hex);
    if contains_char(code, '`') {
        extend_chars(&mut v, "\">`` ");
        extend_chars(&mut v, code);
        extend_chars(&mut v, " ``</font>");
    } else {
        extend_chars(&mut v, "\">`");
        extend_chars(&mut v, code);
        extend_chars(&mut v, "`</font>");
    }
    string_from_chars(&v)
}

/// Formats an inline code snippet in the default code color.
pub fn format_inline_code(code: &str) -> (res: String)
    ensures
        res@ == inline_code_markup(code@, DEFAULT_CODE_COLOR_HEX@),
{
    format_inline_code_with_color(code, DEFAULT_CODE_COLOR_HEX)
}

} // verus!
