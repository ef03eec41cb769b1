use oryn::markdown::mermaid::render_mermaid_diagram;
use oryn::markdown::code_block::{escape_html, highlight_code_block, render_highlighted_code, split_lines, StyledSpan};

fn strip_tags(s: &str) -> String {
    let mut out = String::new();
    let mut in_tag = false;
    for c in s.chars() {
        match c {
            '<' => in_tag = true,
            '>' if in_tag => in_tag = false,
            _ if !in_tag => out.push(c),
            _ => {}
        }
    }
    out
}

#[test]
fn html_special_characters_are_escaped() {
    assert_eq!(escape_html("<a & b>"), "&lt;a &amp; b&gt;");
    assert_eq!(escape_html("&lt;"), "&amp;lt;");
    assert_eq!(escape_html("plain"), "plain");
}

#[test]
fn escaped_text_has_no_angle_brackets() {
    let e = escape_html("<<>> if a < b && b > c");
    assert!(!e.contains('<') && !e.contains('>'));
}

#[test]
fn lines_split_like_str_lines() {
    assert_eq!(split_lines("a\r\nb\n"), vec!["a", "b"]);
    assert_eq!(split_lines("a\n\nb"), vec!["a", "", "b"]);
    assert_eq!(split_lines(""), Vec::<String>::new());
    assert_eq!(split_lines("x\r"), vec!["x\r"]);
    assert_eq!(split_lines("\n"), vec![""]);
}

#[test]
fn rendering_uses_colors_and_escapes() {
    let hs = vec![
        Some(vec![
            StyledSpan { red: 255, green: 0, blue: 16, text: "a<".to_string() },
            StyledSpan { red: 1, green: 2, blue: 3, text: "b".to_string() },
        ]),
        None,
    ];
    assert_eq!(
        render_highlighted_code("a<b\nc&d", &hs),
        "<font color=\"#ff0010\">a&lt;</font><font color=\"#010203\">b</font>\nc&amp;d"
    );
}

#[test]
fn rendering_keeps_a_final_line_break() {
    let hs: Vec<Option<Vec<StyledSpan>>> = vec![None];
    assert_eq!(render_highlighted_code("x\n", &hs), "x\n");
    assert_eq!(render_highlighted_code("x", &hs), "x");
    assert_eq!(render_highlighted_code("", &Vec::new()), "");
}

#[test]
fn highlighted_rust_keeps_the_code_text() {
    let code = "fn main() {\n    let x = a < b;\n}";
    let html = highlight_code_block(code, "rust");
    assert!(html.contains("<font color=\"#"));
    assert!(!html.ends_with('\n'));
    assert_eq!(strip_tags(&html).replace("&lt;", "<").replace("&gt;", ">").replace("&amp;", "&"), code);
}

#[test]
fn highlighting_unknown_language_still_escapes() {
    let html = highlight_code_block("a < b\n", "no-such-language");
    assert!(html.ends_with('\n'));
    assert_eq!(strip_tags(&html), "a &lt; b\n");
}

#[test]
fn mermaid_flowchart_renders_to_svg() {
    let svg = render_mermaid_diagram("graph TD\n    A --> B\n").expect("a flowchart renders");
    assert!(svg.contains("<svg"));
    assert!(svg.contains("oryn-mermaid"));
}

#[test]
fn text_without_a_diagram_renders_nothing() {
    assert_eq!(render_mermaid_diagram(""), None);
}

#[test]
fn the_language_token_chooses_the_syntax() {
    let code = "fn main() { let x = 1; }";
    let rust = highlight_code_block(code, "rust");
    let plain = highlight_code_block(code, "");
    assert!(rust.matches("<font").count() > plain.matches("<font").count());
    assert_eq!(strip_tags(&rust), code);
}
