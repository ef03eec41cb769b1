//! Markdown events from the `pulldown-cmark` parser (CommonMark with tables,
//! task lists and strikethrough), held as plain values of this library.
use vstd::prelude::*;
use pulldown_cmark::{Event, Options, Parser, Tag, TagEnd};
use crate::markdown::heading::HeadingLevel;

verus! {

// =============================================================================
// Plain forms of the parser's events
// =============================================================================

/// What an event of the parser is, without the tag of a start or end event.
pub enum EventKind {
    /// Start of a tagged element other than a list.
    Start,
    /// Start of a list; its first number for an ordered list.
    StartList(Option<u64>),
    /// End of a tagged element.
    End,
    Text(String),
    Code(String),
    SoftBreak,
    HardBreak,
    Rule,
    TaskListMarker(bool),
    /// Any other event.
    Other,
}

/// An event kind with the byte range of the source it covers.
pub struct SourceEvent {
    pub kind: EventKind,
    pub start: usize,
    pub end: usize,
}

/// The tag of a start or end event.
#[derive(Clone, Copy, Debug, PartialEq, Eq, Structural)]
pub enum TagKind {
    /// A heading, with its level number (1 to 6).
    Heading(u8),
    Paragraph,
    List,
    Item,
    Strong,
    Emphasis,
    Strikethrough,
    /// Any other tag.
    OtherTag,
    /// The event is neither a start nor an end.
    NotATag,
}

/// A Markdown event as the block builder reads it.
pub enum MdEvent {
    StartHeading(HeadingLevel),
    EndHeading,
    StartParagraph,
    EndParagraph,
    StartList(Option<u64>),
    EndList,
    StartItem,
    EndItem,
    StartStrong,
    EndStrong,
    StartEmphasis,
    EndEmphasis,
    StartStrikethrough,
    EndStrikethrough,
    Text(String),
    Code(String),
    SoftBreak,
    HardBreak,
    Rule,
    TaskListMarker(bool),
    Other,
}

/// A Markdown event with the byte range of the source it covers.
pub struct MdEventAt {
    pub event: MdEvent,
    pub start: usize,
    pub end: usize,
}

// =============================================================================
// The parser (the `pulldown-cmark` crate)
// =============================================================================

/// Name for the event kinds, with byte ranges, that `pulldown_cmark::Parser`
/// yields for a text through `into_offset_iter`, with tables, task lists and
/// strikethrough enabled.
pub uninterp spec fn cmark_event_kinds(text: Seq<char>) -> Seq<SourceEvent>;

/// Name for the tags of the same events (`NotATag` for events without one).
pub uninterp spec fn cmark_event_tags(text: Seq<char>) -> Seq<TagKind>;

/// The events of `pulldown_cmark::Parser::new_ext(text, options).into_offset_iter()`,
/// as event kinds with their byte ranges. The result is named `cmark_event_kinds`.
#[verifier::external_body]
fn parse_event_kinds(text: &str) -> (res: Vec<SourceEvent>)
    ensures
        res@ == cmark_event_kinds(text@),
{
    let options = Options::ENABLE_TABLES | Options::ENABLE_TASKLISTS | Options::ENABLE_STRIKETHROUGH;
    Parser::new_ext(text, options).into_offset_iter().map(|(e, r)| SourceEvent { kind: match e {
        Event::Start(Tag::List(n)) => EventKind::StartList(n),
        Event::Start(_) => EventKind::Start,
        Event::End(_) => EventKind::End,
        Event::Text(s) => EventKind::Text(s.into_string()),
        Event::Code(s) => EventKind::Code(s.into_string()),
        Event::SoftBreak => EventKind::SoftBreak,
        Event::HardBreak => EventKind::HardBreak,
        Event::Rule => EventKind::Rule,
        Event::TaskListMarker(b) => EventKind::TaskListMarker(b),
        _ => EventKind::Other,
    }, start: r.start, end: r.end }).collect()
}

/// The tags of the events of the same parser, in the same order (the tag of a
/// start event through `Tag::to_end`). The result is named `cmark_event_tags`.
#[verifier::external_body]
fn parse_event_tags(text: &str) -> (res: Vec<TagKind>)
    ensures
        res@ == cmark_event_tags(text@),
{
    let options = Options::ENABLE_TABLES | Options::ENABLE_TASKLISTS | Options::ENABLE_STRIKETHROUGH;
    let tag = |e: Event| match e { Event::Start(t) => Some(t.to_end()), Event::End(t) => Some(t), _ => None };
    Parser::new_ext(text, options).map(tag).map(|t| match t {
        Some(TagEnd::Heading(level)) => TagKind::Heading(level as u8),
        Some(TagEnd::Paragraph) => TagKind::Paragraph,
        Some(TagEnd::List(_)) => TagKind::List,
        Some(TagEnd::Item) => TagKind::Item,
        Some(TagEnd::Strong) => TagKind::Strong,
        Some(TagEnd::Emphasis) => TagKind::Emphasis,
        Some(TagEnd::Strikethrough) => TagKind::Strikethrough,
        Some(_) => TagKind::OtherTag,
        None => TagKind::NotATag,
    }).collect()
}

// =============================================================================
// Combining kinds and tags
// =============================================================================

/// Heading level of a level number; numbers above 6 count as H6.
pub open spec fn level_of_number(n: u8) -> HeadingLevel {
    if n <= 1 {
        HeadingLevel::H1
    } else if n == 2 {
        HeadingLevel::H2
    } else if n == 3 {
        HeadingLevel::H3
    } else if n == 4 {
        HeadingLevel::H4
    } else if n == 5 {
        HeadingLevel::H5
    } else {
        HeadingLevel::H6
    }
}

/// Heading level of a level number (1 to 6).
pub fn heading_level_of_number(n: u8) -> (res: HeadingLevel)
    ensures
        res == level_of_number(n),
{
    if n <= 1 {
        HeadingLevel::H1
    } else if n == 2 {
        HeadingLevel::H2
    } else if n == 3 {
        HeadingLevel::H3
    } else if n == 4 {
        HeadingLevel::H4
    } else if n == 5 {
        HeadingLevel::H5
    } else {
        HeadingLevel::H6
    }
}

/// A heading that the parser reports with `n` markers (level number `n`,
/// 1 to 6) is numbered `n`.
pub proof fn lemma_heading_level_numbers(n: u8)
    requires
        1 <= n <= 6,
    ensures
        crate::markdown::heading::heading_number(level_of_number(n)) == n,
{
}

/// The event that a start event with tag `tag` is.
pub open spec fn start_event(tag: TagKind) -> MdEvent {
    match tag {
        TagKind::Heading(n) => MdEvent::StartHeading(level_of_number(n)),
        TagKind::Paragraph => MdEvent::StartParagraph,
        TagKind::Item => MdEvent::StartItem,
        TagKind::Strong => MdEvent::StartStrong,
        TagKind::Emphasis => MdEvent::StartEmphasis,
        TagKind::Strikethrough => MdEvent::StartStrikethrough,
        _ => MdEvent::Other,
    }
}

/// The event that an end event with tag `tag` is.
pub open spec fn end_event(tag: TagKind) -> MdEvent {
    match tag {
        TagKind::Heading(_) => MdEvent::EndHeading,
        TagKind::Paragraph => MdEvent::EndParagraph,
        TagKind::List => MdEvent::EndList,
        TagKind::Item => MdEvent::EndItem,
        TagKind::Strong => MdEvent::EndStrong,
        TagKind::Emphasis => MdEvent::EndEmphasis,
        TagKind::Strikethrough => MdEvent::EndStrikethrough,
        _ => MdEvent::Other,
    }
}

/// Does `e` stand for the event of kind `kind` and tag `tag`?
pub open spec fn event_matches(e: MdEvent, kind: EventKind, tag: TagKind) -> bool {
    match kind {
        EventKind::Start => e == start_event(tag),
        EventKind::StartList(n) => e == MdEvent::StartList(n),
        EventKind::End => e == end_event(tag),
        EventKind::Text(s) => e matches MdEvent::Text(t) && t@ == s@,
        EventKind::Code(s) => e matches MdEvent::Code(t) && t@ == s@,
        EventKind::SoftBreak => e == MdEvent::SoftBreak,
        EventKind::HardBreak => e == MdEvent::HardBreak,
        EventKind::Rule => e == MdEvent::Rule,
        EventKind::TaskListMarker(b) => e == MdEvent::TaskListMarker(b),
        EventKind::Other => e == MdEvent::Other,
    }
}

/// The tag given for event `i`; `NotATag` beyond the given tags.
pub open spec fn tag_at(tags: Seq<TagKind>, i: int) -> TagKind {
    if 0 <= i < tags.len() {
        tags[i]
    } else {
        TagKind::NotATag
    }
}

/// Do the events `evs` stand for the kinds and tags, one for one, with the
/// same byte ranges?
pub open spec fn events_combined(evs: Seq<MdEventAt>, kinds: Seq<SourceEvent>, tags: Seq<TagKind>) -> bool {
    &&& evs.len() == kinds.len()
    &&& forall|i: int|
        0 <= i < evs.len() ==> {
            &&& event_matches(#[trigger] evs[i].event, kinds[i].kind, tag_at(tags, i))
            &&& evs[i].start == kinds[i].start
            &&& evs[i].end == kinds[i].end
        }
}

fn combine_event(kind: EventKind, tag: TagKind) -> (res: MdEvent)
    ensures
        event_matches(res, kind, tag),
{
    match kind {
        EventKind::Start => match tag {
            TagKind::Heading(n) => MdEvent::StartHeading(heading_level_of_number(n)),
            TagKind::Paragraph => MdEvent::StartParagraph,
            TagKind::Item => MdEvent::StartItem,
            TagKind::Strong => MdEvent::StartStrong,
            TagKind::Emphasis => MdEvent::StartEmphasis,
            TagKind::Strikethrough => MdEvent::StartStrikethrough,
            _ => MdEvent::Other,
        },
        EventKind::StartList(n) => MdEvent::StartList(n),
        EventKind::End => match tag {
            TagKind::Heading(_) => MdEvent::EndHeading,
            TagKind::Paragraph => MdEvent::EndParagraph,
            TagKind::List => MdEvent::EndList,
            TagKind::Item => MdEvent::EndItem,
            TagKind::Strong => MdEvent::EndStrong,
            TagKind::Emphasis => MdEvent::EndEmphasis,
            TagKind::Strikethrough => MdEvent::EndStrikethrough,
            _ => MdEvent::Other,
        },
        EventKind::Text(s) => MdEvent::Text(s),
        EventKind::Code(s) => MdEvent::Code(s),
        EventKind::SoftBreak => MdEvent::SoftBreak,
        EventKind::HardBreak => MdEvent::HardBreak,
        EventKind::Rule => MdEvent::Rule,
        EventKind::TaskListMarker(b) => MdEvent::TaskListMarker(b),
        EventKind::Other => MdEvent::Other,
    }
}

/// Joins event kinds with the tags given for them, one for one.
pub fn combine_events(kinds: Vec<SourceEvent>, tags: &Vec<TagKind>) -> (res: Vec<MdEventAt>)
    ensures
        events_combined(res@, kinds@, tags@),
{
    let n = kinds.len();
    let ghost orig = kinds@;
    let mut src = kinds;
    let mut rest: Vec<SourceEvent> = Vec::new();
    while src.len() > 0
        invariant
            src@.len() + rest@.len() == orig.len(),
            forall|k: int| 0 <= k < src@.len() ==> #[trigger] src@[k] == orig[k],
            forall|k: int| 0 <= k < rest@.len() ==> #[trigger] rest@[k] == orig[orig.len() - 1 - k],
        decreases src.len(),
    {
        let ev = src.pop().unwrap();
        rest.push(ev);
    }
    let mut res: Vec<MdEventAt> = Vec::new();
    let mut i: usize = 0;
    while rest.len() > 0
        invariant
            i == res@.len(),
            i + rest@.len() == orig.len(),
            orig.len() == n,
            forall|k: int| 0 <= k < rest@.len() ==> #[trigger] rest@[k] == orig[orig.len() - 1 - k],
            forall|k: int|
                0 <= k < i ==> {
                    &&& event_matches(#[trigger] res@[k].event, orig[k].kind, tag_at(tags@, k))
                    &&& res@[k].start == orig[k].start
                    &&& res@[k].end == orig[k].end
                },
        decreases rest.len(),
    {
        let ev = rest.pop().unwrap();
        let tag = if i < tags.len() {
            tags[i]
        } else {
            TagKind::NotATag
        };
        let start = ev.start;
        let end = ev.end;
        let e = combine_event(ev.kind, tag);
        res.push(MdEventAt { event: e, start, end });
        i += 1;
    }
    res
}

/// The Markdown events of a text, with byte ranges, as `pulldown-cmark` parses it.
pub fn markdown_events(text: &str) -> (res: Vec<MdEventAt>)
    ensures
        events_combined(res@, cmark_event_kinds(text@), cmark_event_tags(text@)),
{
    let kinds = parse_event_kinds(text);
    let tags = parse_event_tags(text);
    combine_events(kinds, &tags)
}

} // verus!
