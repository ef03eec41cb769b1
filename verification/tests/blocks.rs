use oryn::markdown::blocks::{parse_markdown, MarkdownBlockType, MarkdownElement};
use oryn::markdown::events::{markdown_events, MdEvent};

fn kinds(elements: &[MarkdownElement]) -> Vec<MarkdownBlockType> {
    elements.iter().map(|e| e.block_type).collect()
}

#[test]
fn heading_and_paragraph() {
    let els = parse_markdown("# Title\n\nSome **bold** and *italic* text.\n");
    assert_eq!(kinds(&els), vec![MarkdownBlockType::Heading, MarkdownBlockType::Paragraph]);
    assert_eq!(els[0].text, "Title");
    assert_eq!(els[0].level, 1);
    assert_eq!(els[1].text, "Some **bold** and *italic* text.");
    assert_eq!(els[1].rich_text, "Some **bold** and *italic* text.");
}

#[test]
fn heading_levels_follow_the_markers() {
    let els = parse_markdown("### Third\n");
    assert_eq!(els.len(), 1);
    assert_eq!(els[0].level, 3);
    assert_eq!(els[0].text, "Third");
}

#[test]
fn blank_lines_between_blocks_become_a_spacer() {
    let els = parse_markdown("a\n\n\n\nb");
    assert_eq!(kinds(&els), vec![MarkdownBlockType::Paragraph, MarkdownBlockType::Spacer, MarkdownBlockType::Paragraph]);
    assert_eq!(els[1].level, 2);
    assert_eq!(els[1].text, "");
}

#[test]
fn trailing_blank_lines_become_a_spacer() {
    let els = parse_markdown("a\n\n\n");
    assert_eq!(kinds(&els), vec![MarkdownBlockType::Paragraph, MarkdownBlockType::Spacer]);
    assert_eq!(els[1].level, 1);
}

#[test]
fn inline_code_and_strikethrough_are_rebuilt() {
    let els = parse_markdown("Use `x` not ~~y~~");
    assert_eq!(els.len(), 1);
    assert_eq!(els[0].text, "Use <font color=\"#79c0ff\">`x`</font> not ~~y~~");
}

#[test]
fn task_list_items() {
    let els = parse_markdown("- [x] done\n- todo\n");
    assert_eq!(kinds(&els), vec![MarkdownBlockType::ListItem, MarkdownBlockType::ListItem]);
    assert_eq!(els[0].text, "done");
    assert!(els[0].is_task);
    assert!(els[0].is_checked);
    assert!(!els[0].is_ordered);
    assert_eq!(els[0].prefix, "");
    assert_eq!(els[1].text, "todo");
    assert!(!els[1].is_task);
    assert_eq!(els[1].depth, 0);
}

#[test]
fn ordered_list_numbers_start_where_the_list_does() {
    let els = parse_markdown("3. three\n4. four\n");
    assert_eq!(els.len(), 2);
    assert!(els[0].is_ordered);
    assert_eq!(els[0].prefix, "3.");
    assert_eq!(els[1].prefix, "4.");
    assert_eq!(els[1].text, "four");
}

#[test]
fn nested_list_items_have_depth() {
    let els = parse_markdown("1. outer\n   - inner\n");
    assert_eq!(kinds(&els), vec![MarkdownBlockType::ListItem, MarkdownBlockType::ListItem]);
    assert_eq!(els[0].depth, 0);
    assert_eq!(els[0].prefix, "1.");
    assert_eq!(els[0].text, "outer");
    assert_eq!(els[1].depth, 1);
    assert_eq!(els[1].text, "inner");
    assert!(!els[1].is_ordered);
}

#[test]
fn list_items_keep_inline_markup_in_rich_text() {
    let els = parse_markdown("- a **b**\n");
    assert_eq!(els[0].text, "a b");
    assert_eq!(els[0].rich_text, "a **b**");
}

#[test]
fn horizontal_rule() {
    let els = parse_markdown("***\n");
    assert_eq!(kinds(&els), vec![MarkdownBlockType::Rule]);
}

#[test]
fn empty_document_has_no_blocks() {
    assert!(parse_markdown("").is_empty());
}

#[test]
fn every_block_is_shown_and_well_formed() {
    let doc = "# A\n\n\n\n## \n\npara\n\n- x\n\n---\n\n\n";
    for e in parse_markdown(doc) {
        match e.block_type {
            MarkdownBlockType::Heading => {
                assert!((1..=6).contains(&e.level));
                assert!(!e.text.is_empty());
            }
            MarkdownBlockType::Paragraph => assert!(!e.text.is_empty()),
            MarkdownBlockType::Spacer => assert!(e.level >= 1),
            _ => {}
        }
    }
}

#[test]
fn parser_events_carry_text_and_ranges() {
    let evs = markdown_events("*hi*");
    assert!(matches!(evs[0].event, MdEvent::StartParagraph));
    assert!(matches!(evs[1].event, MdEvent::StartEmphasis));
    match &evs[2].event {
        MdEvent::Text(t) => assert_eq!(t, "hi"),
        _ => panic!("expected text"),
    }
    assert_eq!((evs[2].start, evs[2].end), (1, 3));
    assert!(matches!(evs[3].event, MdEvent::EndEmphasis));
    assert!(matches!(evs[4].event, MdEvent::EndParagraph));
    assert_eq!(evs.len(), 5);
}
