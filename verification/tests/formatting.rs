use oryn::markdown::blockquote::clean_blockquote_text;
use oryn::markdown::bold::{close_bold_tag, open_bold_tag};
use oryn::markdown::code::{close_code_tag, format_inline_code, format_inline_code_with_color, open_code_tag, DEFAULT_CODE_COLOR_HEX};
use oryn::markdown::heading::{heading_level_to_int, HeadingLevel};
use oryn::markdown::italic::{close_italic_tag, open_italic_tag};
use oryn::markdown::link::{format_markdown_link, sanitize_url};
use oryn::markdown::list::format_ordered_prefix;
use oryn::markdown::paragraph::clean_paragraph_text;
use oryn::markdown::spacer::calculate_blank_lines;
use oryn::markdown::table::{alignment_to_int, Alignment};

#[test]
fn delimiters_are_markdown_syntax() {
    assert_eq!(open_bold_tag(), "**");
    assert_eq!(close_bold_tag(), "**");
    assert_eq!(open_italic_tag(), "*");
    assert_eq!(close_italic_tag(), "*");
    assert_eq!(open_code_tag(), "`");
    assert_eq!(close_code_tag(), "`");
}

#[test]
fn inline_code_uses_single_backticks() {
    assert_eq!(format_inline_code_with_color("let x", "#123456"), "<font color=\"#123456\">`let x`</font>");
}

#[test]
fn inline_code_with_backtick_uses_double_backticks() {
    assert_eq!(format_inline_code_with_color("a`b", "#000000"), "<font color=\"#000000\">`` a`b ``</font>");
}

#[test]
fn inline_code_default_color() {
    assert_eq!(DEFAULT_CODE_COLOR_HEX, "#79c0ff");
    assert_eq!(format_inline_code("x"), "<font color=\"#79c0ff\">`x`</font>");
    assert_eq!(format_inline_code(""), "<font color=\"#79c0ff\">``</font>");
}

#[test]
fn blockquote_text_is_trimmed() {
    assert_eq!(clean_blockquote_text("\t quoted text \n"), "quoted text");
    assert_eq!(clean_blockquote_text("\u{3000}wide\u{a0}"), "wide");
    assert_eq!(clean_blockquote_text("   "), "");
}

#[test]
fn blockquote_cleaning_is_idempotent() {
    let once = clean_blockquote_text("  a b  ");
    assert_eq!(clean_blockquote_text(&once), once);
}

#[test]
fn paragraph_text_is_kept() {
    assert_eq!(clean_paragraph_text("  as is  "), "  as is  ");
}

#[test]
fn url_is_trimmed() {
    assert_eq!(sanitize_url("  https://example.org/x  "), "https://example.org/x");
}

#[test]
fn empty_url_becomes_hash() {
    assert_eq!(sanitize_url(""), "#");
    assert_eq!(sanitize_url(" \n\t "), "#");
}

#[test]
fn unsafe_schemes_become_hash() {
    assert_eq!(sanitize_url("javascript:alert(1)"), "#");
    assert_eq!(sanitize_url("  JavaScript:alert(1) "), "#");
    assert_eq!(sanitize_url("VBSCRIPT:msgbox"), "#");
    assert_eq!(sanitize_url("data:text/html,<b>x</b>"), "#");
    assert_eq!(format_markdown_link("x", "javascript:void(0)"), "[x](#)");
}

#[test]
fn safe_schemes_are_kept() {
    assert_eq!(sanitize_url("mailto:me@example.org"), "mailto:me@example.org");
    assert_eq!(sanitize_url("https://javascript.info"), "https://javascript.info");
    assert_eq!(sanitize_url("datasheet.md"), "datasheet.md");
}

#[test]
fn markdown_link_syntax() {
    assert_eq!(format_markdown_link("Oryn", " https://oryn.app "), "[Oryn](https://oryn.app)");
    assert_eq!(format_markdown_link("empty", ""), "[empty](#)");
}

#[test]
fn ordered_prefix_is_number_and_dot() {
    assert_eq!(format_ordered_prefix(1, 0), "1.");
    assert_eq!(format_ordered_prefix(42, 3), "42.");
    assert_eq!(format_ordered_prefix(0, 1), "0.");
    assert_eq!(format_ordered_prefix(-7, 0), "-7.");
    assert_eq!(format_ordered_prefix(i32::MIN, 0), "-2147483648.");
}

#[test]
fn ordered_prefix_is_the_same_at_every_depth() {
    assert_eq!(format_ordered_prefix(12, 0), format_ordered_prefix(12, 5));
}

#[test]
fn blank_lines_are_one_fewer_than_newlines() {
    assert_eq!(calculate_blank_lines(""), 0);
    assert_eq!(calculate_blank_lines("\n"), 0);
    assert_eq!(calculate_blank_lines("\n\n"), 1);
    assert_eq!(calculate_blank_lines("a\n \n\n b"), 2);
}

#[test]
fn heading_levels_are_numbered() {
    assert_eq!(heading_level_to_int(HeadingLevel::H1), 1);
    assert_eq!(heading_level_to_int(HeadingLevel::H3), 3);
    assert_eq!(heading_level_to_int(HeadingLevel::H6), 6);
}

#[test]
fn alignments_are_coded() {
    assert_eq!(alignment_to_int(Alignment::Unspecified), 0);
    assert_eq!(alignment_to_int(Alignment::Left), 0);
    assert_eq!(alignment_to_int(Alignment::Center), 1);
    assert_eq!(alignment_to_int(Alignment::Right), 2);
}
