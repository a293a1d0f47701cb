use vstd::prelude::*;

verus! {

/// A 1-based, inclusive range of [`Document`](crate::Document) lines.
///
/// `first()` is never greater than `last()`, and both are at least 1. Spans in a document are
/// built by [`Document::from_source_and_blocks`](crate::Document::from_source_and_blocks), which
/// also guarantees that `last()` is never beyond the document's last line.
#[derive(Debug, Clone, Copy, PartialEq, Eq, Structural)]
pub struct LineSpan {
    first: usize,
    last: usize,
}

/// The mathematical value of a [`LineSpan`]: its first and last line.
pub struct LineSpanView {
    pub first: nat,
    pub last: nat,
}

impl View for LineSpan {
    type V = LineSpanView;

    closed spec fn view(&self) -> LineSpanView {
        LineSpanView { first: self.first as nat, last: self.last as nat }
    }
}

impl LineSpan {
    #[verifier::type_invariant]
    spec fn ordered(self) -> bool {
        1 <= self.first <= self.last
    }

    /// Builds a span, raising `last` to `first` if it is lower, so the ordering invariant holds
    /// for any pair of line numbers.
    pub fn new(first: usize, last: usize) -> (res: LineSpan)
        requires
            first >= 1,
            last >= 1,
        ensures
            res@.first == first,
            res@.last == if last >= first { last } else { first },
    {
        LineSpan { first, last: if last >= first { last } else { first } }
    }

    /// The first line in the span.
    pub fn first(&self) -> (res: usize)
        ensures
            res == self@.first,
            1 <= res <= self@.last,
    {
        proof {
            use_type_invariant(self);
        }
        self.first
    }

    /// The last line in the span, which is never before [`first`](Self::first).
    pub fn last(&self) -> (res: usize)
        ensures
            res == self@.last,
            1 <= self@.first <= res,
    {
        proof {
            use_type_invariant(self);
        }
        self.last
    }
}

/// One of the six heading levels Markdown defines, from `H1` (a document title) to `H6`.
#[derive(Debug, Clone, Copy, PartialEq, Eq, Structural, PartialOrd, Ord, Hash)]
pub enum HeadingLevel {
    /// A level-1 heading, written `# text` or underlined with `=`.
    H1,
    /// A level-2 heading, written `## text` or underlined with `-`.
    H2,
    /// A level-3 heading, written `### text`.
    H3,
    /// A level-4 heading, written `#### text`.
    H4,
    /// A level-5 heading, written `##### text`.
    H5,
    /// A level-6 heading, written `###### text`.
    H6,
}

/// The number `1` to `6` of a heading level.
pub open spec fn level_number(level: HeadingLevel) -> nat {
    match level {
        HeadingLevel::H1 => 1,
        HeadingLevel::H2 => 2,
        HeadingLevel::H3 => 3,
        HeadingLevel::H4 => 4,
        HeadingLevel::H5 => 5,
        HeadingLevel::H6 => 6,
    }
}

/// The heading level with a given number, for `1` to `6`.
pub open spec fn level_of_number(n: nat) -> Option<HeadingLevel> {
    if n == 1 {
        Some(HeadingLevel::H1)
    } else if n == 2 {
        Some(HeadingLevel::H2)
    } else if n == 3 {
        Some(HeadingLevel::H3)
    } else if n == 4 {
        Some(HeadingLevel::H4)
    } else if n == 5 {
        Some(HeadingLevel::H5)
    } else if n == 6 {
        Some(HeadingLevel::H6)
    } else {
        None
    }
}

/// Levels and their numbers match one to one: a level's number is `1` to `6` and gives the level
/// back, and every level but the deepest has a level one deeper.
pub proof fn lemma_level_numbers(level: HeadingLevel)
    ensures
        1 <= level_number(level) <= 6,
        level_of_number(level_number(level)) == Some(level),
        level_of_number(level_number(level) + 1) is None <==> level == HeadingLevel::H6,
{
}

impl HeadingLevel {
    /// The level as the number `1` to `6` that messages print.
    pub fn number(self) -> (res: u8)
        ensures
            res == level_number(self),
            1 <= res <= 6,
    {
        match self {
            HeadingLevel::H1 => 1,
            HeadingLevel::H2 => 2,
            HeadingLevel::H3 => 3,
            HeadingLevel::H4 => 4,
            HeadingLevel::H5 => 5,
            HeadingLevel::H6 => 6,
        }
    }

    /// The next level down, or `None` for the deepest level, which has none.
    pub fn deeper(self) -> (res: Option<HeadingLevel>)
        ensures
            res == level_of_number(level_number(self) + 1),
    {
        match self {
            HeadingLevel::H1 => Some(HeadingLevel::H2),
            HeadingLevel::H2 => Some(HeadingLevel::H3),
            HeadingLevel::H3 => Some(HeadingLevel::H4),
            HeadingLevel::H4 => Some(HeadingLevel::H5),
            HeadingLevel::H5 => Some(HeadingLevel::H6),
            HeadingLevel::H6 => None,
        }
    }
}

/// What kind of Markdown block a [`Block`] is.
///
/// Code that asks a question about a block, such as whether its lines are code, uses a query
/// method like [`is_code`](Self::is_code) rather than matching on variants.
#[derive(Debug, Clone, Copy, PartialEq, Eq, Structural)]
#[non_exhaustive]
pub enum BlockKind {
    /// A code block opened by a backtick or tilde fence.
    FencedCode,
    /// A code block made of indented lines, including any blank lines between its chunks.
    IndentedCode,
    /// A heading, spanning every line of it, an underline included.
    Heading(HeadingLevel),
    /// A block of raw HTML, such as a `<div>` element or a comment.
    Html,
    /// A block quote. Blocks inside it are reported separately.
    BlockQuote,
    /// An ordered or unordered list, spanning all of its items.
    List,
}

/// Whether every line of a block of this kind is code.
pub open spec fn kind_is_code(kind: BlockKind) -> bool {
    kind == BlockKind::FencedCode || kind == BlockKind::IndentedCode
}

/// The heading level of a heading kind, or `None` for any other kind.
pub open spec fn kind_heading_level(kind: BlockKind) -> Option<HeadingLevel> {
    match kind {
        BlockKind::Heading(level) => Some(level),
        _ => None,
    }
}

/// Whether every line of a block of this kind is raw HTML.
pub open spec fn kind_is_html(kind: BlockKind) -> bool {
    kind == BlockKind::Html
}

/// Whether a block of this kind holds other blocks.
pub open spec fn kind_is_container(kind: BlockKind) -> bool {
    kind == BlockKind::BlockQuote || kind == BlockKind::List
}

impl BlockKind {
    /// Whether every line of a block of this kind is code.
    pub fn is_code(self) -> (res: bool)
        ensures
            res == kind_is_code(self),
    {
        match self {
            BlockKind::FencedCode | BlockKind::IndentedCode => true,
            BlockKind::Heading(_) | BlockKind::Html | BlockKind::BlockQuote | BlockKind::List => {
                false
            },
        }
    }

    /// The heading level of a heading block, or `None` for any other kind.
    pub fn heading_level(self) -> (res: Option<HeadingLevel>)
        ensures
            res == kind_heading_level(self),
    {
        match self {
            BlockKind::Heading(level) => Some(level),
            BlockKind::FencedCode
            | BlockKind::IndentedCode
            | BlockKind::Html
            | BlockKind::BlockQuote
            | BlockKind::List => None,
        }
    }

    /// Whether every line of a block of this kind is raw HTML.
    pub fn is_html(self) -> (res: bool)
        ensures
            res == kind_is_html(self),
    {
        match self {
            BlockKind::Html => true,
            BlockKind::FencedCode
            | BlockKind::IndentedCode
            | BlockKind::Heading(_)
            | BlockKind::BlockQuote
            | BlockKind::List => false,
        }
    }

    /// Whether a block of this kind holds other blocks, so a block inside its line span is
    /// nested rather than at the top level of the document.
    pub fn is_container(self) -> (res: bool)
        ensures
            res == kind_is_container(self),
    {
        match self {
            BlockKind::BlockQuote | BlockKind::List => true,
            BlockKind::FencedCode
            | BlockKind::IndentedCode
            | BlockKind::Heading(_)
            | BlockKind::Html => false,
        }
    }
}

/// One Markdown block of a [`Document`](crate::Document): its kind and the whole lines it spans.
#[derive(Debug, Clone, Copy, PartialEq, Eq, Structural)]
pub struct Block {
    kind: BlockKind,
    lines: LineSpan,
}

/// The mathematical value of a [`Block`]: its kind and its first and last line.
pub struct BlockView {
    pub kind: BlockKind,
    pub first: nat,
    pub last: nat,
}

impl View for Block {
    type V = BlockView;

    closed spec fn view(&self) -> BlockView {
        BlockView { kind: self.kind, first: self.lines@.first, last: self.lines@.last }
    }
}

impl Block {
    /// Builds a block of `kind` spanning `lines`.
    pub fn new(kind: BlockKind, lines: LineSpan) -> (res: Block)
        ensures
            res@ == (BlockView { kind, first: lines@.first, last: lines@.last }),
    {
        Block { kind, lines }
    }

    /// The kind of block.
    pub fn kind(&self) -> (res: BlockKind)
        ensures
            res == self@.kind,
    {
        self.kind
    }

    /// The lines the block spans.
    pub fn lines(&self) -> (res: LineSpan)
        ensures
            res@.first == self@.first,
            res@.last == self@.last,
            1 <= self@.first <= self@.last,
    {
        proof {
            use_type_invariant(self.lines);
        }
        self.lines
    }
}

} // verus!
