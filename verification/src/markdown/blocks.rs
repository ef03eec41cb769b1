//! The Markdown block builder: turns the parser's events into rendered blocks
//! (headings, paragraphs, list items, rules and blank-line spacers), rebuilding
//! inline formatting as Markdown source for rich-text rendering.
use vstd::prelude::*;
use vstd::string::StringSliceAdditionalSpecFns;
use crate::markdown::bold::{close_bold_tag, open_bold_tag};
use crate::markdown::code::{format_inline_code, inline_code_markup, DEFAULT_CODE_COLOR_HEX};
use crate::markdown::events::{markdown_events, cmark_event_kinds, cmark_event_tags, events_combined, MdEvent, MdEventAt};
use crate::markdown::heading::{heading_level_to_int, heading_number};
use crate::markdown::italic::{close_italic_tag, open_italic_tag};
use crate::markdown::list::{format_ordered_prefix, ordered_prefix};
use crate::markdown::spacer::blank_lines_for;
use crate::text::{chars_of, extend_chars, extend_vec, string_from_chars, trim, trim_chars};

verus! {

// =============================================================================
// Blocks
// =============================================================================

/// Kind of a rendered Markdown block.
#[derive(Clone, Copy, Debug, PartialEq, Eq, Structural)]
pub enum MarkdownBlockType {
    Heading,
    Paragraph,
    ListItem,
    Rule,
    Spacer,
}

/// A rendered Markdown block. `text` is its plain text; `rich_text` is its
/// Markdown source with inline formatting, for a rich-text widget.
pub struct MarkdownElement {
    pub block_type: MarkdownBlockType,
    pub text: String,
    pub rich_text: String,
    /// Heading level for headings, blank line count for spacers, else 0.
    pub level: i32,
    pub is_ordered: bool,
    pub prefix: String,
    pub is_task: bool,
    pub is_checked: bool,
    pub depth: i32,
}

/// A block as a mathematical value.
#[verifier::ext_equal]
pub struct ElementView {
    pub block_type: MarkdownBlockType,
    pub text: Seq<char>,
    pub rich_text: Seq<char>,
    pub level: i32,
    pub is_ordered: bool,
    pub prefix: Seq<char>,
    pub is_task: bool,
    pub is_checked: bool,
    pub depth: i32,
}

impl View for MarkdownElement {
    type V = ElementView;

    open spec fn view(&self) -> ElementView {
        ElementView {
            block_type: self.block_type,
            text: self.text@,
            rich_text: self.rich_text@,
            level: self.level,
            is_ordered: self.is_ordered,
            prefix: self.prefix@,
            is_task: self.is_task,
            is_checked: self.is_checked,
            depth: self.depth,
        }
    }
}

/// The views of a sequence of blocks.
pub open spec fn element_views(v: Seq<MarkdownElement>) -> Seq<ElementView> {
    Seq::new(v.len(), |i: int| v[i]@)
}

/// A block of kind `t` with the given text and rich text, level 0 and no list data.
pub open spec fn simple_block(t: MarkdownBlockType, text: Seq<char>, rich: Seq<char>, level: i32) -> ElementView {
    ElementView {
        block_type: t,
        text: text,
        rich_text: rich,
        level: level,
        is_ordered: false,
        prefix: Seq::empty(),
        is_task: false,
        is_checked: false,
        depth: 0,
    }
}

// =============================================================================
// Builder state
// =============================================================================

/// An open list: whether it is ordered, and the number of its next item.
#[derive(Clone, Copy, Debug, PartialEq, Eq, Structural)]
pub struct ListFrame {
    pub is_ordered: bool,
    pub current_index: i32,
}

/// An open list item as a mathematical value.
#[verifier::ext_equal]
pub struct ItemView {
    pub element_index: usize,
    pub depth: i32,
    pub is_ordered: bool,
    pub prefix: Seq<char>,
    pub is_task: bool,
    pub is_checked: bool,
    pub rich: Seq<char>,
    pub plain: Seq<char>,
}

/// The block builder's state as a mathematical value.
#[verifier::ext_equal]
pub struct BuilderState {
    pub elements: Seq<ElementView>,
    pub heading_level: i32,
    pub in_heading: bool,
    pub in_paragraph: bool,
    pub rich: Seq<char>,
    pub lists: Seq<ListFrame>,
    pub items: Seq<ItemView>,
    pub last_pos: usize,
}

/// The state before the first event.
pub open spec fn initial_state() -> BuilderState {
    BuilderState {
        elements: Seq::empty(),
        heading_level: 1,
        in_heading: false,
        in_paragraph: false,
        rich: Seq::empty(),
        lists: Seq::empty(),
        items: Seq::empty(),
        last_pos: 0,
    }
}

/// Number of line feed bytes in `b`.
pub open spec fn newline_bytes(b: Seq<u8>) -> nat
    decreases b.len(),
{
    if b.len() == 0 {
        0
    } else {
        newline_bytes(b.drop_last()) + if b.last() == 10u8 {
            1nat
        } else {
            0nat
        }
    }
}

/// `elements` followed by a spacer for the blank lines between the end of the
/// previous top-level block (`last_pos`) and `current_start`, where there are any.
pub open spec fn with_spacer(src: Seq<u8>, elements: Seq<ElementView>, last_pos: usize, current_start: usize) -> Seq<ElementView> {
    if current_start > last_pos && last_pos < src.len() {
        let stop: int = if current_start < src.len() {
            current_start as int
        } else {
            src.len() as int
        };
        let blank = blank_lines_for(newline_bytes(src.subrange(last_pos as int, stop)));
        if blank > 0 {
            elements.push(simple_block(MarkdownBlockType::Spacer, Seq::empty(), Seq::empty(), blank as i32))
        } else {
            elements
        }
    } else {
        elements
    }
}

/// Inline content `md` (with plain text `plain`) added to the innermost open
/// list item, else to the open heading or paragraph, else dropped.
pub open spec fn append_inline(st: BuilderState, md: Seq<char>, plain: Seq<char>) -> BuilderState {
    if st.items.len() > 0 {
        let top = st.items.last();
        BuilderState {
            items: st.items.drop_last().push(ItemView { rich: top.rich + md, plain: top.plain + plain, ..top }),
            ..st
        }
    } else if st.in_heading || st.in_paragraph {
        BuilderState { rich: st.rich + md, ..st }
    } else {
        st
    }
}

/// Depth of an item opened inside `n` open lists (0 at top level).
pub open spec fn item_depth(n: nat) -> i32 {
    if n == 0 {
        0
    } else if n - 1 <= i32::MAX {
        (n - 1) as i32
    } else {
        i32::MAX
    }
}

/// The number after `x`, wrapping around at the end of the `i32` range.
pub open spec fn next_index(x: i32) -> i32 {
    if x == i32::MAX {
        i32::MIN
    } else {
        (x + 1) as i32
    }
}

/// The state after an item starts.
pub open spec fn start_item(st: BuilderState) -> BuilderState {
    let depth = item_depth(st.lists.len());
    let ordered = st.lists.len() > 0 && st.lists.last().is_ordered;
    let prefix = if ordered {
        ordered_prefix(st.lists.last().current_index)
    } else {
        Seq::empty()
    };
    let lists = if ordered {
        st.lists.drop_last().push(ListFrame { is_ordered: true, current_index: next_index(st.lists.last().current_index) })
    } else {
        st.lists
    };
    let placeholder = ElementView {
        block_type: MarkdownBlockType::ListItem,
        text: Seq::empty(),
        rich_text: Seq::empty(),
        level: 0,
        is_ordered: ordered,
        prefix: prefix,
        is_task: false,
        is_checked: false,
        depth: depth,
    };
    let frame = ItemView {
        element_index: st.elements.len() as usize,
        depth: depth,
        is_ordered: ordered,
        prefix: prefix,
        is_task: false,
        is_checked: false,
        rich: Seq::empty(),
        plain: Seq::empty(),
    };
    BuilderState { elements: st.elements.push(placeholder), lists: lists, items: st.items.push(frame), ..st }
}

/// The state after an item ends: its placeholder block gets the item's text.
pub open spec fn end_item(st: BuilderState) -> BuilderState {
    if st.items.len() == 0 {
        st
    } else {
        let f = st.items.last();
        let block = ElementView {
            block_type: MarkdownBlockType::ListItem,
            text: trim(f.plain),
            rich_text: trim(f.rich),
            level: 0,
            is_ordered: f.is_ordered,
            prefix: f.prefix,
            is_task: f.is_task,
            is_checked: f.is_checked,
            depth: f.depth,
        };
        let elements = if f.element_index < st.elements.len() {
            st.elements.update(f.element_index as int, block)
        } else {
            st.elements
        };
        BuilderState { elements: elements, items: st.items.drop_last(), ..st }
    }
}

/// The state after one event covering the bytes `start..end` of the source.
pub open spec fn step(src: Seq<u8>, st: BuilderState, ev: MdEvent, start: usize, end: usize) -> BuilderState {
    let top_level = st.lists.len() == 0;
    let spaced = if top_level {
        with_spacer(src, st.elements, st.last_pos, start)
    } else {
        st.elements
    };
    match ev {
        MdEvent::StartHeading(level) => BuilderState {
            elements: spaced,
            in_heading: true,
            heading_level: heading_number(level) as i32,
            rich: Seq::empty(),
            ..st
        },
        MdEvent::EndHeading => if st.in_heading {
            let md = trim(st.rich);
            if md.len() > 0 {
                BuilderState {
                    elements: st.elements.push(simple_block(MarkdownBlockType::Heading, md, md, st.heading_level)),
                    in_heading: false,
                    rich: Seq::empty(),
                    last_pos: end,
                    ..st
                }
            } else {
                BuilderState { in_heading: false, rich: Seq::empty(), ..st }
            }
        } else {
            st
        },
        MdEvent::StartParagraph => if top_level {
            BuilderState { elements: spaced, in_paragraph: true, rich: Seq::empty(), ..st }
        } else {
            st
        },
        MdEvent::EndParagraph => if st.in_paragraph && top_level {
            let md = trim(st.rich);
            if md.len() > 0 {
                BuilderState {
                    elements: st.elements.push(simple_block(MarkdownBlockType::Paragraph, md, md, 0)),
                    in_paragraph: false,
                    rich: Seq::empty(),
                    last_pos: end,
                    ..st
                }
            } else {
                BuilderState { in_paragraph: false, rich: Seq::empty(), ..st }
            }
        } else {
            st
        },
        MdEvent::Rule => if top_level {
            BuilderState {
                elements: spaced.push(simple_block(MarkdownBlockType::Rule, Seq::empty(), Seq::empty(), 0)),
                last_pos: end,
                ..st
            }
        } else {
            st
        },
        MdEvent::StartList(n) => {
            let frame = ListFrame {
                is_ordered: n is Some,
                current_index: match n {
                    Some(k) => k as i32,
                    None => 1,
                },
            };
            BuilderState { elements: spaced, lists: st.lists.push(frame), ..st }
        },
        MdEvent::EndList => {
            let lists = if st.lists.len() > 0 {
                st.lists.drop_last()
            } else {
                st.lists
            };
            BuilderState {
                lists: lists,
                last_pos: if lists.len() == 0 {
                    end
                } else {
                    st.last_pos
                },
                ..st
            }
        },
        MdEvent::StartItem => start_item(st),
        MdEvent::EndItem => end_item(st),
        MdEvent::TaskListMarker(checked) => if st.items.len() > 0 {
            let top = st.items.last();
            BuilderState {
                items: st.items.drop_last().push(ItemView { is_task: true, is_checked: checked, ..top }),
                ..st
            }
        } else {
            st
        },
        MdEvent::StartStrong => append_inline(st, "**"@, Seq::empty()),
        MdEvent::EndStrong => append_inline(st, "**"@, Seq::empty()),
        MdEvent::StartEmphasis => append_inline(st, "*"@, Seq::empty()),
        MdEvent::EndEmphasis => append_inline(st, "*"@, Seq::empty()),
        MdEvent::StartStrikethrough => append_inline(st, "~~"@, Seq::empty()),
        MdEvent::EndStrikethrough => append_inline(st, "~~"@, Seq::empty()),
        MdEvent::Text(t) => append_inline(st, t@, t@),
        MdEvent::Code(c) => append_inline(st, inline_code_markup(c@, DEFAULT_CODE_COLOR_HEX@), c@),
        MdEvent::SoftBreak => append_inline(st, seq!['\n'], seq!['\n']),
        MdEvent::HardBreak => append_inline(st, seq!['\n'], seq!['\n']),
        MdEvent::Other => st,
    }
}

/// The state after the events `evs`, from the initial state.
pub open spec fn run_events(src: Seq<u8>, evs: Seq<MdEventAt>) -> BuilderState
    decreases evs.len(),
{
    if evs.len() == 0 {
        initial_state()
    } else {
        let e = evs.last();
        step(src, run_events(src, evs.drop_last()), e.event, e.start, e.end)
    }
}

/// Is a block shown? List items, rules and spacers always are; other blocks
/// when they have text.
pub open spec fn is_shown(e: ElementView) -> bool {
    e.block_type == MarkdownBlockType::ListItem || e.block_type == MarkdownBlockType::Rule
        || e.block_type == MarkdownBlockType::Spacer || e.text.len() > 0
}

/// The shown blocks of `s`, in order.
pub open spec fn shown_blocks(s: Seq<ElementView>) -> Seq<ElementView>
    decreases s.len(),
{
    if s.len() == 0 {
        Seq::empty()
    } else if is_shown(s.last()) {
        shown_blocks(s.drop_last()).push(s.last())
    } else {
        shown_blocks(s.drop_last())
    }
}

/// The blocks of a source (as bytes) from its events: every event applied in
/// order, a final spacer for trailing blank lines, and the shown blocks kept.
pub open spec fn blocks_of_events(src: Seq<u8>, evs: Seq<MdEventAt>) -> Seq<ElementView> {
    let st = run_events(src, evs);
    shown_blocks(with_spacer(src, st.elements, st.last_pos, src.len() as usize))
}

// =============================================================================
// Executable builder
// =============================================================================

/// An open list item.
pub struct ItemFrame {
    pub element_index: usize,
    pub depth: i32,
    pub is_ordered: bool,
    pub prefix: Vec<char>,
    pub is_task: bool,
    pub is_checked: bool,
    pub rich: Vec<char>,
    pub plain: Vec<char>,
}

impl View for ItemFrame {
    type V = ItemView;

    open spec fn view(&self) -> ItemView {
        ItemView {
            element_index: self.element_index,
            depth: self.depth,
            is_ordered: self.is_ordered,
            prefix: self.prefix@,
            is_task: self.is_task,
            is_checked: self.is_checked,
            rich: self.rich@,
            plain: self.plain@,
        }
    }
}

/// The block builder.
pub struct BlockBuilder {
    pub elements: Vec<MarkdownElement>,
    pub heading_level: i32,
    pub in_heading: bool,
    pub in_paragraph: bool,
    pub rich: Vec<char>,
    pub lists: Vec<ListFrame>,
    pub items: Vec<ItemFrame>,
    pub last_pos: usize,
}

/// The views of a sequence of item frames.
pub open spec fn item_views(v: Seq<ItemFrame>) -> Seq<ItemView> {
    Seq::new(v.len(), |i: int| v[i]@)
}

impl View for BlockBuilder {
    type V = BuilderState;

    open spec fn view(&self) -> BuilderState {
        BuilderState {
            elements: element_views(self.elements@),
            heading_level: self.heading_level,
            in_heading: self.in_heading,
            in_paragraph: self.in_paragraph,
            rich: self.rich@,
            lists: self.lists@,
            items: item_views(self.items@),
            last_pos: self.last_pos,
        }
    }
}

fn push_element(v: &mut Vec<MarkdownElement>, e: MarkdownElement)
    ensures
        element_views(final(v)@) == element_views(old(v)@).push(e@),
{
    let ghost e_view = e@;
    v.push(e);
    assert(element_views(v@) =~= element_views(old(v)@).push(e_view));
}

fn push_item(v: &mut Vec<ItemFrame>, f: ItemFrame)
    ensures
        item_views(final(v)@) == item_views(old(v)@).push(f@),
{
    let ghost f_view = f@;
    v.push(f);
    assert(item_views(v@) =~= item_views(old(v)@).push(f_view));
}

fn pop_item(v: &mut Vec<ItemFrame>) -> (res: ItemFrame)
    requires
        old(v)@.len() > 0,
    ensures
        res@ == item_views(old(v)@).last(),
        item_views(final(v)@) == item_views(old(v)@).drop_last(),
{
    let f = v.pop().unwrap();
    assert(item_views(v@) =~= item_views(old(v)@).drop_last());
    f
}

fn block(t: MarkdownBlockType, text: &Vec<char>, rich: &Vec<char>, level: i32) -> (res: MarkdownElement)
    ensures
        res@ == simple_block(t, text@, rich@, level),
{
    MarkdownElement {
        block_type: t,
        text: string_from_chars(text),
        rich_text: string_from_chars(rich),
        level,
        is_ordered: false,
        prefix: String::new(),
        is_task: false,
        is_checked: false,
        depth: 0,
    }
}

fn count_newline_bytes(b: &[u8], from: usize, to: usize) -> (res: usize)
    requires
        from <= to <= b@.len(),
    ensures
        res == newline_bytes(b@.subrange(from as int, to as int)),
        res <= to - from,
{
    let mut n: usize = 0;
    let mut i: usize = from;
    while i < to
        invariant
            from <= i <= to <= b@.len(),
            n == newline_bytes(b@.subrange(from as int, i as int)),
            n <= i - from,
        decreases to - i,
    {
        assert(b@.subrange(from as int, i + 1).drop_last() == b@.subrange(from as int, i as int));
        if b[i] == 10u8 {
            n += 1;
        }
        i += 1;
    }
    n
}

impl BlockBuilder {
    /// A builder in the initial state.
    pub fn new() -> (res: Self)
        ensures
            res@ == initial_state(),
    {
        let res = BlockBuilder {
            elements: Vec::new(),
            heading_level: 1,
            in_heading: false,
            in_paragraph: false,
            rich: Vec::new(),
            lists: Vec::new(),
            items: Vec::new(),
            last_pos: 0,
        };
        assert(res@ =~= initial_state());
        res
    }

    /// Adds a spacer for the blank lines between the previous top-level block
    /// and `current_start`.
    pub fn insert_spacer(&mut self, src: &[u8], current_start: usize)
        requires
            src@.len() <= i32::MAX,
        ensures
            final(self)@ == (BuilderState {
                elements: with_spacer(src@, old(self)@.elements, old(self)@.last_pos, current_start),
                ..old(self)@
            }),
    {
        let last = self.last_pos;
        if current_start > last && last < src.len() {
            let stop = if current_start < src.len() {
                current_start
            } else {
                src.len()
            };
            let n = count_newline_bytes(src, last, stop);
            if n > 1 {
                let none: Vec<char> = Vec::new();
                push_element(&mut self.elements, block(MarkdownBlockType::Spacer, &none, &none, (n - 1) as i32));
            }
        }
        assert(self@ =~= BuilderState {
            elements: with_spacer(src@, old(self)@.elements, old(self)@.last_pos, current_start),
            ..old(self)@
        });
    }

    /// Adds inline content to the innermost open item, else to the open
    /// heading or paragraph.
    pub fn append_inline(&mut self, md: &Vec<char>, plain: &Vec<char>)
        ensures
            final(self)@ == append_inline(old(self)@, md@, plain@),
    {
        if self.items.len() > 0 {
            let mut top = pop_item(&mut self.items);
            extend_vec(&mut top.rich, md);
            extend_vec(&mut top.plain, plain);
            push_item(&mut self.items, top);
        } else if self.in_heading || self.in_paragraph {
            extend_vec(&mut self.rich, md);
        }
        assert(self@ =~= append_inline(old(self)@, md@, plain@));
    }

    fn start_item(&mut self)
        ensures
            final(self)@ == start_item(old(self)@),
    {
        let n = self.lists.len();
        let depth: i32 = if n == 0 {
            0
        } else if n - 1 <= i32::MAX as usize {
            (n - 1) as i32
        } else {
            i32::MAX
        };
        let ordered = n > 0 && self.lists[n - 1].is_ordered;
        let mut prefix: Vec<char> = Vec::new();
        if ordered {
            let current = self.lists[n - 1].current_index;
            let p = format_ordered_prefix(current, depth);
            prefix = chars_of(p.as_str());
            let next = if current == i32::MAX {
                i32::MIN
            } else {
                current + 1
            };
            self.lists.set(n - 1, ListFrame { is_ordered: true, current_index: next });
        }
        let element_index = self.elements.len();
        let placeholder = MarkdownElement {
            block_type: MarkdownBlockType::ListItem,
            text: String::new(),
            rich_text: String::new(),
            level: 0,
            is_ordered: ordered,
            prefix: string_from_chars(&prefix),
            is_task: false,
            is_checked: false,
            depth,
        };
        push_element(&mut self.elements, placeholder);
        let frame = ItemFrame {
            element_index,
            depth,
            is_ordered: ordered,
            prefix,
            is_task: false,
            is_checked: false,
            rich: Vec::new(),
            plain: Vec::new(),
        };
        push_item(&mut self.items, frame);
        proof {
            if ordered {
                assert(self.lists@ =~= old(self).lists@.drop_last().push(
                    ListFrame { is_ordered: true, current_index: next_index(old(self).lists@.last().current_index) },
                ));
            }
        }
        assert(self@ =~= start_item(old(self)@));
    }

    fn end_item(&mut self)
        ensures
            final(self)@ == end_item(old(self)@),
    {
        if self.items.len() > 0 {
            let f = pop_item(&mut self.items);
            let text = trim_chars(&f.plain);
            let rich = trim_chars(&f.rich);
            if f.element_index < self.elements.len() {
                let e = MarkdownElement {
                    block_type: MarkdownBlockType::ListItem,
                    text: string_from_chars(&text),
                    rich_text: string_from_chars(&rich),
                    level: 0,
                    is_ordered: f.is_ordered,
                    prefix: string_from_chars(&f.prefix),
                    is_task: f.is_task,
                    is_checked: f.is_checked,
                    depth: f.depth,
                };
                let ghost e_view = e@;
                let idx = f.element_index;
                self.elements.set(idx, e);
                assert(element_views(self.elements@) =~= element_views(old(self).elements@).update(idx as int, e_view));
            }
        }
        assert(self@ =~= end_item(old(self)@));
    }

    fn finish_block(&mut self, t: MarkdownBlockType, level: i32, end: usize)
        ensures
            ({
                let md = trim(old(self)@.rich);
                final(self)@ == if md.len() > 0 {
                    BuilderState {
                        elements: old(self)@.elements.push(simple_block(t, md, md, level)),
                        rich: Seq::empty(),
                        last_pos: end,
                        ..old(self)@
                    }
                } else {
                    BuilderState { rich: Seq::empty(), ..old(self)@ }
                }
            }),
    {
        let md = trim_chars(&self.rich);
        if md.len() > 0 {
            push_element(&mut self.elements, block(t, &md, &md, level));
            self.last_pos = end;
        }
        self.rich = Vec::new();
        let ghost md_view = trim(old(self)@.rich);
        assert(self@ =~= if md_view.len() > 0 {
            BuilderState {
                elements: old(self)@.elements.push(simple_block(t, md_view, md_view, level)),
                rich: Seq::empty(),
                last_pos: end,
                ..old(self)@
            }
        } else {
            BuilderState { rich: Seq::empty(), ..old(self)@ }
        });
    }

    /// Applies one event covering the bytes `start..end` of the source `src`.
    pub fn apply(&mut self, src: &[u8], ev: &MdEvent, start: usize, end: usize)
        requires
            src@.len() <= i32::MAX,
        ensures
            final(self)@ == step(src@, old(self)@, *ev, start, end),
    {
        let top_level = self.lists.len() == 0;
        match ev {
            MdEvent::StartHeading(level) => {
                if top_level {
                    self.insert_spacer(src, start);
                }
                self.in_heading = true;
                self.heading_level = heading_level_to_int(*level);
                self.rich = Vec::new();
            },
            MdEvent::EndHeading => {
                if self.in_heading {
                    self.in_heading = false;
                    let level = self.heading_level;
                    self.finish_block(MarkdownBlockType::Heading, level, end);
                }
            },
            MdEvent::StartParagraph => {
                if top_level {
                    self.insert_spacer(src, start);
                    self.in_paragraph = true;
                    self.rich = Vec::new();
                }
            },
            MdEvent::EndParagraph => {
                if self.in_paragraph && top_level {
                    self.in_paragraph = false;
                    self.finish_block(MarkdownBlockType::Paragraph, 0, end);
                }
            },
            MdEvent::Rule => {
                if top_level {
                    self.insert_spacer(src, start);
                    let none: Vec<char> = Vec::new();
                    push_element(&mut self.elements, block(MarkdownBlockType::Rule, &none, &none, 0));
                    self.last_pos = end;
                }
            },
            MdEvent::StartList(n) => {
                if top_level {
                    self.insert_spacer(src, start);
                }
                let frame = match n {
                    Some(k) => ListFrame { is_ordered: true, current_index: *k as i32 },
                    None => ListFrame { is_ordered: false, current_index: 1 },
                };
                self.lists.push(frame);
            },
            MdEvent::EndList => {
                self.lists.pop();
                if self.lists.len() == 0 {
                    self.last_pos = end;
                }
            },
            MdEvent::StartItem => {
                self.start_item();
            },
            MdEvent::EndItem => {
                self.end_item();
            },
            MdEvent::TaskListMarker(checked) => {
                if self.items.len() > 0 {
                    let mut top = pop_item(&mut self.items);
                    top.is_task = true;
                    top.is_checked = *checked;
                    push_item(&mut self.items, top);
                }
            },
            MdEvent::StartStrong => {
                self.append_inline(&chars_of(open_bold_tag()), &Vec::new());
            },
            MdEvent::EndStrong => {
                self.append_inline(&chars_of(close_bold_tag()), &Vec::new());
            },
            MdEvent::StartEmphasis => {
                self.append_inline(&chars_of(open_italic_tag()), &Vec::new());
            },
            MdEvent::EndEmphasis => {
                self.append_inline(&chars_of(close_italic_tag()), &Vec::new());
            },
            MdEvent::StartStrikethrough => {
                self.append_inline(&chars_of("~~"), &Vec::new());
            },
            MdEvent::EndStrikethrough => {
                self.append_inline(&chars_of("~~"), &Vec::new());
            },
            MdEvent::Text(t) => {
                let v = chars_of(t.as_str());
                self.append_inline(&v, &v);
            },
            MdEvent::Code(c) => {
                let formatted = format_inline_code(c.as_str());
                self.append_inline(&chars_of(formatted.as_str()), &chars_of(c.as_str()));
            },
            MdEvent::SoftBreak | MdEvent::HardBreak => {
                let mut v: Vec<char> = Vec::new();
                v.push('\n');
                self.append_inline(&v, &v);
            },
            MdEvent::Other => {},
        }
        assert(self@ =~= step(src@, old(self)@, *ev, start, end));
    }
}

fn shown_elements(v: Vec<MarkdownElement>) -> (res: Vec<MarkdownElement>)
    ensures
        element_views(res@) == shown_blocks(element_views(v@)),
{
    let ghost views = element_views(v@);
    let n = v.len();
    let mut src = v;
    let mut rev: Vec<MarkdownElement> = Vec::new();
    while src.len() > 0
        invariant
            src@.len() + rev@.len() == n,
            views.len() == n,
            forall|k: int| 0 <= k < src@.len() ==> #[trigger] src@[k]@ == views[k],
            forall|k: int| 0 <= k < rev@.len() ==> #[trigger] rev@[k]@ == views[n - 1 - k],
        decreases src.len(),
    {
        let e = src.pop().unwrap();
        rev.push(e);
    }
    let mut res: Vec<MarkdownElement> = Vec::new();
    let mut i: usize = 0;
    while rev.len() > 0
        invariant
            i + rev@.len() == n,
            views.len() == n,
            forall|k: int| 0 <= k < rev@.len() ==> #[trigger] rev@[k]@ == views[n - 1 - k],
            element_views(res@) == shown_blocks(views.take(i as int)),
        decreases rev.len(),
    {
        let ghost last = rev@.len() - 1;
        assert(rev@[last]@ == views[n - 1 - last]);
        let e = rev.pop().unwrap();
        assert(e@ == views[i as int]);
        assert(views.take(i + 1).drop_last() == views.take(i as int));
        assert(views.take(i + 1).last() == views[i as int]);
        let shown = match e.block_type {
            MarkdownBlockType::ListItem | MarkdownBlockType::Rule | MarkdownBlockType::Spacer => true,
            _ => !e.text.as_str().is_empty(),
        };
        assert(shown == is_shown(views[i as int]));
        if shown {
            push_element(&mut res, e);
        }
        i += 1;
    }
    assert(views.take(n as int) == views);
    res
}

/// The blocks of a Markdown source from its events: each event updates the
/// builder in order, a spacer marks trailing blank lines, and empty headings
/// and paragraphs are dropped.
pub fn blocks_from_events(markdown_text: &str, events: &Vec<MdEventAt>) -> (res: Vec<MarkdownElement>)
    requires
        markdown_text.spec_bytes().len() <= i32::MAX,
    ensures
        element_views(res@) == blocks_of_events(markdown_text.spec_bytes(), events@),
{
    let src = markdown_text.as_bytes();
    let mut b = BlockBuilder::new();
    let mut i: usize = 0;
    while i < events.len()
        invariant
            i <= events.len(),
            src@ == markdown_text.spec_bytes(),
            src@.len() <= i32::MAX,
            b@ == run_events(src@, events@.take(i as int)),
        decreases events.len() - i,
    {
        assert(events@.take(i + 1).drop_last() == events@.take(i as int));
        let e = &events[i];
        b.apply(src, &e.event, e.start, e.end);
        i += 1;
    }
    assert(events@.take(events.len() as int) == events@);
    let end = src.len();
    b.insert_spacer(src, end);
    shown_elements(b.elements)
}

// =============================================================================
// Laws
// =============================================================================

/// Is a block well formed: headings have a level from 1 to 6 and text,
/// paragraphs have text, spacers stand for at least one blank line?
pub open spec fn block_well_formed(e: ElementView) -> bool {
    &&& e.block_type == MarkdownBlockType::Heading ==> 1 <= e.level <= 6 && e.text.len() > 0
    &&& e.block_type == MarkdownBlockType::Paragraph ==> e.text.len() > 0
    &&& e.block_type == MarkdownBlockType::Spacer ==> e.level >= 1
}

/// Is a builder state well formed: a heading level from 1 to 6 and well-formed blocks?
pub open spec fn state_well_formed(st: BuilderState) -> bool {
    &&& 1 <= st.heading_level <= 6
    &&& forall|i: int| 0 <= i < st.elements.len() ==> block_well_formed(#[trigger] st.elements[i])
}

proof fn lemma_newline_bytes_bound(b: Seq<u8>)
    ensures
        newline_bytes(b) <= b.len(),
    decreases b.len(),
{
    if b.len() > 0 {
        lemma_newline_bytes_bound(b.drop_last());
    }
}

proof fn lemma_spacer_well_formed(src: Seq<u8>, elements: Seq<ElementView>, last_pos: usize, current_start: usize)
    requires
        src.len() <= i32::MAX,
        forall|i: int| 0 <= i < elements.len() ==> block_well_formed(#[trigger] elements[i]),
    ensures
        forall|i: int| 0 <= i < with_spacer(src, elements, last_pos, current_start).len()
            ==> block_well_formed(#[trigger] with_spacer(src, elements, last_pos, current_start)[i]),
{
    if current_start > last_pos && last_pos < src.len() {
        let stop: int = if current_start < src.len() {
            current_start as int
        } else {
            src.len() as int
        };
        lemma_newline_bytes_bound(src.subrange(last_pos as int, stop));
        let r = with_spacer(src, elements, last_pos, current_start);
        assert forall|i: int| 0 <= i < r.len() implies block_well_formed(#[trigger] r[i]) by {
            if i < elements.len() {
                assert(r[i] == elements[i]);
            }
        }
    }
}

proof fn lemma_push_well_formed(elements: Seq<ElementView>, e: ElementView)
    requires
        forall|i: int| 0 <= i < elements.len() ==> block_well_formed(#[trigger] elements[i]),
        block_well_formed(e),
    ensures
        forall|i: int| 0 <= i < elements.push(e).len() ==> block_well_formed(#[trigger] elements.push(e)[i]),
{
    assert forall|i: int| 0 <= i < elements.push(e).len() implies block_well_formed(#[trigger] elements.push(e)[i]) by {
        if i < elements.len() {
            assert(elements.push(e)[i] == elements[i]);
        }
    }
}

proof fn lemma_step_well_formed(src: Seq<u8>, st: BuilderState, ev: MdEvent, start: usize, end: usize)
    requires
        src.len() <= i32::MAX,
        state_well_formed(st),
    ensures
        state_well_formed(step(src, st, ev, start, end)),
{
    lemma_spacer_well_formed(src, st.elements, st.last_pos, start);
    let spaced = with_spacer(src, st.elements, st.last_pos, start);
    match ev {
        MdEvent::StartHeading(level) => {
        },
        MdEvent::EndHeading => {
            let md = trim(st.rich);
            if md.len() > 0 {
                lemma_push_well_formed(st.elements, simple_block(MarkdownBlockType::Heading, md, md, st.heading_level));
            }
        },
        MdEvent::EndParagraph => {
            let md = trim(st.rich);
            if md.len() > 0 {
                lemma_push_well_formed(st.elements, simple_block(MarkdownBlockType::Paragraph, md, md, 0));
            }
        },
        MdEvent::Rule => {
            lemma_push_well_formed(spaced, simple_block(MarkdownBlockType::Rule, Seq::empty(), Seq::empty(), 0));
        },
        MdEvent::StartItem => {
            let r = start_item(st);
            assert forall|i: int| 0 <= i < r.elements.len() implies block_well_formed(#[trigger] r.elements[i]) by {
                if i < st.elements.len() {
                    assert(r.elements[i] == st.elements[i]);
                }
            }
        },
        MdEvent::EndItem => {
            let r = end_item(st);
            if st.items.len() > 0 {
                let f = st.items.last();
                assert forall|i: int| 0 <= i < r.elements.len() implies block_well_formed(#[trigger] r.elements[i]) by {
                    if i != f.element_index {
                        assert(r.elements[i] == st.elements[i]);
                    }
                }
            }
        },
        _ => {
        },
    }
}

proof fn lemma_run_well_formed(src: Seq<u8>, evs: Seq<MdEventAt>)
    requires
        src.len() <= i32::MAX,
    ensures
        state_well_formed(run_events(src, evs)),
    decreases evs.len(),
{
    if evs.len() > 0 {
        lemma_run_well_formed(src, evs.drop_last());
        let e = evs.last();
        lemma_step_well_formed(src, run_events(src, evs.drop_last()), e.event, e.start, e.end);
    }
}

proof fn lemma_shown_blocks(s: Seq<ElementView>)
    requires
        forall|i: int| 0 <= i < s.len() ==> block_well_formed(#[trigger] s[i]),
    ensures
        forall|i: int| 0 <= i < shown_blocks(s).len() ==> block_well_formed(#[trigger] shown_blocks(s)[i]) && is_shown(shown_blocks(s)[i]),
        shown_blocks(s).len() <= s.len(),
    decreases s.len(),
{
    if s.len() > 0 {
        let rest = s.drop_last();
        assert forall|i: int| 0 <= i < rest.len() implies block_well_formed(#[trigger] rest[i]) by {
            assert(rest[i] == s[i]);
        }
        lemma_shown_blocks(rest);
        let r = shown_blocks(s);
        let t = shown_blocks(rest);
        assert(block_well_formed(s[s.len() - 1]));
        assert forall|i: int| 0 <= i < r.len() implies block_well_formed(#[trigger] r[i]) && is_shown(r[i]) by {
            if is_shown(s.last()) && i == t.len() {
                assert(r[i] == s.last());
            } else {
                assert(r[i] == t[i]);
            }
        }
    }
}

/// Every block the parser returns is shown and well formed: headings have a
/// level from 1 to 6 and text, paragraphs have text, spacers count at least
/// one blank line.
pub proof fn lemma_blocks_well_formed(src: Seq<u8>, evs: Seq<MdEventAt>)
    requires
        src.len() <= i32::MAX,
    ensures
        forall|i: int|
            0 <= i < blocks_of_events(src, evs).len() ==> block_well_formed(#[trigger] blocks_of_events(src, evs)[i])
                && is_shown(blocks_of_events(src, evs)[i]),
{
    lemma_run_well_formed(src, evs);
    let st = run_events(src, evs);
    lemma_spacer_well_formed(src, st.elements, st.last_pos, src.len() as usize);
    lemma_shown_blocks(with_spacer(src, st.elements, st.last_pos, src.len() as usize));
}

/// Parses a Markdown document into rendered blocks: the events that
/// `pulldown-cmark` yields for it, turned into blocks by the block builder.
pub fn parse_markdown(markdown_text: &str) -> (res: Vec<MarkdownElement>)
    requires
        markdown_text.spec_bytes().len() <= i32::MAX,
    ensures
        exists|evs: Seq<MdEventAt>|
            events_combined(evs, cmark_event_kinds(markdown_text@), cmark_event_tags(markdown_text@))
                && element_views(res@) == blocks_of_events(markdown_text.spec_bytes(), evs),
{
    let events = markdown_events(markdown_text);
    blocks_from_events(markdown_text, &events)
}

} // verus!
