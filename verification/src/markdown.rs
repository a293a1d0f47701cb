//! Finding the blocks of a Markdown source with `pulldown-cmark`: where each code block,
//! heading, HTML block, block quote, and list starts and ends.
use std::ops::Range;

use pulldown_cmark::{CodeBlockKind, Event, Parser, Tag};

use vstd::prelude::*;

use crate::application::ports::MarkdownParser;
use crate::block::{level_of_number, BlockKind, HeadingLevel};
use crate::document::{placed_blocks, source_lines, trailing_newlines, Document, DocumentView};
use crate::sort::is_stable_sort_of;
use vstd::utf8::encode_utf8;

verus! {

/// What one parser event opens, as far as the rules care.
#[derive(Debug, Clone, Copy, PartialEq, Eq, Structural)]
pub enum EventTag {
    /// The start of a code block opened by a backtick or tilde fence.
    FencedCodeStart,
    /// The start of an indented code block.
    IndentedCodeStart,
    /// The start of a heading, with its level as the number the parser gives it, `1` to `6`.
    HeadingStart(u8),
    /// The start of an HTML block.
    HtmlBlockStart,
    /// The start of a block quote.
    BlockQuoteStart,
    /// The start of a list.
    ListStart,
    /// Any other event.
    Other,
}

/// One parser event: what it opens, and the byte range of the source it covers.
#[derive(Debug, Clone, Copy, PartialEq, Eq, Structural)]
pub struct MarkdownEvent {
    /// What the event opens.
    pub tag: EventTag,
    /// The first byte the event covers.
    pub start: usize,
    /// One past the last byte the event covers.
    pub end: usize,
}

/// The events `pulldown-cmark`, with CommonMark defaults and no extensions, gives for a source,
/// in order: a function of the source alone.
pub uninterp spec fn markdown_events(source: Seq<char>) -> Seq<MarkdownEvent>;

/// Every event `pulldown_cmark::Parser::new(source).into_offset_iter()` gives, in order, with
/// its byte range. The parser runs with CommonMark defaults and no extensions, and its block
/// parsing is not recursive, so deeply nested input cannot overflow the stack. The contract names
/// the result as a function of the source and states nothing more of it.
#[verifier::external_body]
fn parse_events(source: &str) -> (res: Vec<MarkdownEvent>)
    ensures
        res@ == markdown_events(source@),
{
    let mut events = Vec::new();
    for (event, range) in Parser::new(source).into_offset_iter() {
        let tag = match event {
            Event::Start(Tag::CodeBlock(CodeBlockKind::Fenced(_))) => EventTag::FencedCodeStart,
            Event::Start(Tag::CodeBlock(CodeBlockKind::Indented)) => EventTag::IndentedCodeStart,
            Event::Start(Tag::Heading { level, .. }) => EventTag::HeadingStart(level as u8),
            Event::Start(Tag::HtmlBlock) => EventTag::HtmlBlockStart,
            Event::Start(Tag::BlockQuote(_)) => EventTag::BlockQuoteStart,
            Event::Start(Tag::List(_)) => EventTag::ListStart,
            _ => EventTag::Other,
        };
        events.push(MarkdownEvent { tag, start: range.start, end: range.end });
    }
    events
}

/// The block kind an event opens, if it opens one the rules need.
pub open spec fn opened_kind(tag: EventTag) -> Option<BlockKind> {
    match tag {
        EventTag::FencedCodeStart => Some(BlockKind::FencedCode),
        EventTag::IndentedCodeStart => Some(BlockKind::IndentedCode),
        EventTag::HeadingStart(number) => match level_of_number(number as nat) {
            Some(level) => Some(BlockKind::Heading(level)),
            None => None,
        },
        EventTag::HtmlBlockStart => Some(BlockKind::Html),
        EventTag::BlockQuoteStart => Some(BlockKind::BlockQuote),
        EventTag::ListStart => Some(BlockKind::List),
        EventTag::Other => None,
    }
}

/// The `(kind, byte range)` of every event among the first `count` that opens a block the rules
/// need, in event order.
pub open spec fn opened_blocks(events: Seq<MarkdownEvent>, count: int) -> Seq<(BlockKind, Range<usize>)>
    decreases count,
{
    if count <= 0 {
        Seq::empty()
    } else {
        let event = events[count - 1];
        opened_blocks(events, count - 1) + match opened_kind(event.tag) {
            Some(kind) => seq![(kind, Range { start: event.start, end: event.end })],
            None => Seq::empty(),
        }
    }
}

/// The blocks the rules need among `events`, in event order.
pub open spec fn event_blocks(events: Seq<MarkdownEvent>) -> Seq<(BlockKind, Range<usize>)> {
    opened_blocks(events, events.len() as int)
}

fn level_from_number(number: u8) -> (res: Option<HeadingLevel>)
    ensures
        res == level_of_number(number as nat),
{
    match number {
        1 => Some(HeadingLevel::H1),
        2 => Some(HeadingLevel::H2),
        3 => Some(HeadingLevel::H3),
        4 => Some(HeadingLevel::H4),
        5 => Some(HeadingLevel::H5),
        6 => Some(HeadingLevel::H6),
        _ => None,
    }
}

fn opened_kind_of(tag: EventTag) -> (res: Option<BlockKind>)
    ensures
        res == opened_kind(tag),
{
    match tag {
        EventTag::FencedCodeStart => Some(BlockKind::FencedCode),
        EventTag::IndentedCodeStart => Some(BlockKind::IndentedCode),
        EventTag::HeadingStart(number) => match level_from_number(number) {
            Some(level) => Some(BlockKind::Heading(level)),
            None => None,
        },
        EventTag::HtmlBlockStart => Some(BlockKind::Html),
        EventTag::BlockQuoteStart => Some(BlockKind::BlockQuote),
        EventTag::ListStart => Some(BlockKind::List),
        EventTag::Other => None,
    }
}

/// Keeps the events that open a block the rules need, as `(kind, byte range)` pairs in order.
pub fn blocks_of_events(events: &Vec<MarkdownEvent>) -> (res: Vec<(BlockKind, Range<usize>)>)
    ensures
        res@ == event_blocks(events@),
{
    let mut blocks: Vec<(BlockKind, Range<usize>)> = Vec::new();
    let mut index: usize = 0;
    while index < events.len()
        invariant
            index <= events@.len(),
            blocks@ == opened_blocks(events@, index as int),
        decreases events@.len() - index,
    {
        let event = events[index];
        if let Some(kind) = opened_kind_of(event.tag) {
            blocks.push((kind, Range { start: event.start, end: event.end }));
        }
        index = index + 1;
        assert(blocks@ =~= opened_blocks(events@, index as int));
    }
    blocks
}

/// Builds the document of `source` whose parser events are `events`.
pub fn document_from_events(source: &str, events: &Vec<MarkdownEvent>) -> (res: Document)
    ensures
        res@.lines == source_lines(source@),
        res@.trailing_newline_count == trailing_newlines(source@),
        res@.source_is_empty == (source@.len() == 0),
        is_stable_sort_of(
            res@.blocks,
            placed_blocks(encode_utf8(source@), source_lines(source@).len(), event_blocks(events@)),
        ),
{
    let blocks = blocks_of_events(events);
    Document::from_source_and_blocks(source, blocks)
}

/// Parses Markdown with `pulldown-cmark` and records where each code block, heading, HTML block,
/// block quote, and list starts and ends, so rules can tell those lines apart.
///
/// Only block kinds and byte ranges leave the parser; the [`Document`] turns them into line
/// spans, and what is nested is decided from the spans themselves.
#[derive(Debug, Default, Clone, Copy)]
pub struct PulldownMarkdownParser;

impl MarkdownParser for PulldownMarkdownParser {
    /// The document `pulldown-cmark`'s events give for `source`: its lines, its trailing newline
    /// count, and the blocks the events open, placed on lines and ordered by first line.
    open spec fn parses_to(&self, source: Seq<char>, doc: DocumentView) -> bool {
        &&& doc.lines == source_lines(source)
        &&& doc.trailing_newline_count == trailing_newlines(source)
        &&& doc.source_is_empty == (source.len() == 0)
        &&& is_stable_sort_of(
            doc.blocks,
            placed_blocks(
                encode_utf8(source),
                source_lines(source).len(),
                event_blocks(markdown_events(source)),
            ),
        )
    }

    /// Parses `source` into its lines and the blocks the rules need.
    fn parse(&self, source: &str) -> (res: Document)
        ensures
            res@.lines == source_lines(source@),
            res@.trailing_newline_count == trailing_newlines(source@),
            res@.source_is_empty == (source@.len() == 0),
            is_stable_sort_of(
                res@.blocks,
                placed_blocks(
                    encode_utf8(source@),
                    source_lines(source@).len(),
                    event_blocks(markdown_events(source@)),
                ),
            ),
    {
        let events = parse_events(source);
        document_from_events(source, &events)
    }
}

} // verus!
