use vstd::prelude::*;

use crate::block::{level_number, HeadingLevel};
use crate::location::{location_text, Location, LocationView};
use crate::rule_id::{rule_code, RuleId};
use crate::text::{decimal, push_decimal, push_str};

verus! {

/// The message of a [`Finding`], rendered by [`FindingMessage::to_text`].
///
/// The set of messages is closed and no variant carries text, so a message can never echo the
/// contents of the file being checked. Numbers in a message are limits and counts the rule
/// defines.
#[derive(Debug, Clone, Copy, PartialEq, Eq, Structural)]
#[non_exhaustive]
#[allow(inconsistent_fields)]
pub enum FindingMessage {
    /// Renders as "trailing whitespace".
    TrailingWhitespace,
    /// Renders as "missing single trailing newline".
    MissingTrailingNewline,
    /// Renders as "more than one trailing newline".
    MultipleTrailingNewlines,
    /// Renders as "hard tab".
    HardTab,
    /// Renders as "multiple consecutive blank lines (expected at most {maximum}, found {found})".
    MultipleBlankLines {
        /// The most consecutive blank lines allowed.
        maximum: usize,
        /// How many consecutive blank lines there are, up to and including the reported one.
        found: usize,
    },
    /// Renders as "line too long (expected at most {maximum} characters, found {found})".
    LineTooLong {
        /// The most characters a line may have.
        maximum: usize,
        /// How many characters the line has.
        found: usize,
    },
    /// Renders as "heading level skipped (expected h{expected}, found h{found})".
    HeadingLevelSkipped {
        /// The level one deeper than the heading before.
        expected: HeadingLevel,
        /// The level the heading has.
        found: HeadingLevel,
    },
    /// Renders as "no space after hash on atx style heading".
    MissingSpaceAfterHash,
    /// Renders as "missing blank line above heading".
    MissingBlankLineAboveHeading,
    /// Renders as "missing blank line below heading".
    MissingBlankLineBelowHeading,
    /// Renders as "multiple top-level headings in the same document".
    MultipleTopLevelHeadings,
}

/// The exact text a message renders as.
pub open spec fn message_text(message: FindingMessage) -> Seq<char> {
    match message {
        FindingMessage::TrailingWhitespace => "trailing whitespace"@,
        FindingMessage::MissingTrailingNewline => "missing single trailing newline"@,
        FindingMessage::MultipleTrailingNewlines => "more than one trailing newline"@,
        FindingMessage::HardTab => "hard tab"@,
        FindingMessage::MultipleBlankLines { maximum, found } => "multiple consecutive blank lines (expected at most "@
            + decimal(maximum as nat) + ", found "@ + decimal(found as nat) + ")"@,
        FindingMessage::LineTooLong { maximum, found } => "line too long (expected at most "@
            + decimal(maximum as nat) + " characters, found "@ + decimal(found as nat) + ")"@,
        FindingMessage::HeadingLevelSkipped { expected, found } => "heading level skipped (expected h"@
            + decimal(level_number(expected)) + ", found h"@ + decimal(level_number(found))
            + ")"@,
        FindingMessage::MissingSpaceAfterHash => "no space after hash on atx style heading"@,
        FindingMessage::MissingBlankLineAboveHeading => "missing blank line above heading"@,
        FindingMessage::MissingBlankLineBelowHeading => "missing blank line below heading"@,
        FindingMessage::MultipleTopLevelHeadings => "multiple top-level headings in the same document"@,
    }
}

impl FindingMessage {
    /// The message's text, as its `Display` would render it.
    pub fn to_text(&self) -> (res: String)
        ensures
            res@ == message_text(*self),
    {
        let mut text = String::new();
        match *self {
            FindingMessage::TrailingWhitespace => push_str(&mut text, "trailing whitespace"),
            FindingMessage::MissingTrailingNewline => {
                push_str(&mut text, "missing single trailing newline")
            },
            FindingMessage::MultipleTrailingNewlines => {
                push_str(&mut text, "more than one trailing newline")
            },
            FindingMessage::HardTab => push_str(&mut text, "hard tab"),
            FindingMessage::MultipleBlankLines { maximum, found } => {
                push_str(&mut text, "multiple consecutive blank lines (expected at most ");
                push_decimal(&mut text, maximum as u64);
                push_str(&mut text, ", found ");
                push_decimal(&mut text, found as u64);
                push_str(&mut text, ")");
            },
            FindingMessage::LineTooLong { maximum, found } => {
                push_str(&mut text, "line too long (expected at most ");
                push_decimal(&mut text, maximum as u64);
                push_str(&mut text, " characters, found ");
                push_decimal(&mut text, found as u64);
                push_str(&mut text, ")");
            },
            FindingMessage::HeadingLevelSkipped { expected, found } => {
                push_str(&mut text, "heading level skipped (expected h");
                push_decimal(&mut text, expected.number() as u64);
                push_str(&mut text, ", found h");
                push_decimal(&mut text, found.number() as u64);
                push_str(&mut text, ")");
            },
            FindingMessage::MissingSpaceAfterHash => {
                push_str(&mut text, "no space after hash on atx style heading")
            },
            FindingMessage::MissingBlankLineAboveHeading => {
                push_str(&mut text, "missing blank line above heading")
            },
            FindingMessage::MissingBlankLineBelowHeading => {
                push_str(&mut text, "missing blank line below heading")
            },
            FindingMessage::MultipleTopLevelHeadings => {
                push_str(&mut text, "multiple top-level headings in the same document")
            },
        }
        assert(text@ =~= message_text(*self));
        text
    }
}

/// One style problem a rule reported at a specific location.
///
/// A finding holds only fixed-size data, so it is `Copy` and a file with very many findings costs
/// a fixed amount of memory per finding.
#[derive(Debug, Clone, Copy, PartialEq, Eq, Structural)]
pub struct Finding {
    rule: RuleId,
    location: Location,
    message: FindingMessage,
}

/// The mathematical value of a [`Finding`].
pub struct FindingView {
    pub rule: RuleId,
    pub location: LocationView,
    pub message: FindingMessage,
}

/// The text a finding renders as after its path: `line:col RULE message`.
pub open spec fn finding_text(finding: FindingView) -> Seq<char> {
    location_text(finding.location) + " "@ + rule_code(finding.rule) + " "@ + message_text(
        finding.message,
    )
}

impl View for Finding {
    type V = FindingView;

    closed spec fn view(&self) -> FindingView {
        FindingView { rule: self.rule, location: self.location@, message: self.message }
    }
}

impl Finding {
    /// A finding's line and column fit in a `usize`.
    pub proof fn lemma_location_fits(self)
        ensures
            self@.location.line <= usize::MAX,
            self@.location.col <= usize::MAX,
    {
        self.location.lemma_fits();
    }

    /// Builds a `Finding`. Infallible: every field is already a validated type.
    pub fn new(rule: RuleId, location: Location, message: FindingMessage) -> (res: Finding)
        ensures
            res@ == (FindingView { rule, location: location@, message }),
    {
        Finding { rule, location, message }
    }

    /// The rule that produced this finding.
    pub fn rule(&self) -> (res: RuleId)
        ensures
            res == self@.rule,
    {
        self.rule
    }

    /// Where in the document the finding applies.
    pub fn location(&self) -> (res: Location)
        ensures
            res@ == self@.location,
    {
        self.location
    }

    /// The message, which never echoes file contents.
    pub fn message(&self) -> (res: FindingMessage)
        ensures
            res == self@.message,
    {
        self.message
    }

    /// Renders `line:col RULE message`, the part of an output line after the path and its colon.
    pub fn to_text(&self) -> (res: String)
        ensures
            res@ == finding_text(self@),
    {
        let mut text = self.location.to_text();
        push_str(&mut text, " ");
        push_str(&mut text, self.rule.code());
        push_str(&mut text, " ");
        let message = self.message.to_text();
        push_str(&mut text, message.as_str());
        assert(text@ =~= finding_text(self@));
        text
    }
}

} // verus!

verus! {

/// The base that keeps a column below a line and a rule rank below a column in a finding's key.
pub open spec fn key_base() -> int {
    0x1_0000_0000_0000_0000
}

/// The position of a finding in output order: by line, then column, then rule identifier.
pub open spec fn output_key(finding: FindingView) -> int {
    (finding.location.line * key_base() + finding.location.col) * 16 + crate::rule_id::rule_rank(
        finding.rule,
    )
}

impl crate::sort::SpecKey for FindingView {
    open spec fn sort_key(&self) -> int {
        output_key(*self)
    }
}

impl crate::sort::SpecKey for Finding {
    open spec fn sort_key(&self) -> int {
        output_key(self@)
    }
}

/// Output keys order findings by line, then column, then rule.
pub proof fn lemma_output_key_order(a: FindingView, b: FindingView)
    requires
        a.location.col < key_base(),
        b.location.col < key_base(),
    ensures
        (output_key(a) <= output_key(b)) == (a.location.line < b.location.line || (a.location.line
            == b.location.line && (a.location.col < b.location.col || (a.location.col
            == b.location.col && crate::rule_id::rule_rank(a.rule) <= crate::rule_id::rule_rank(
            b.rule,
        ))))),
{
    let ra = crate::rule_id::rule_rank(a.rule) as int;
    let rb = crate::rule_id::rule_rank(b.rule) as int;
    assert(0 <= ra < 16 && 0 <= rb < 16);
    let la = a.location.line as int;
    let lb = b.location.line as int;
    let ca = a.location.col as int;
    let cb = b.location.col as int;
    let k = key_base();
    assert(output_key(a) == (la * k + ca) * 16 + ra);
    assert(output_key(b) == (lb * k + cb) * 16 + rb);
    assert((la * k + ca) * 16 + ra <= (lb * k + cb) * 16 + rb <==> (la < lb || (la == lb && (ca < cb
        || (ca == cb && ra <= rb))))) by (nonlinear_arith)
        requires
            0 <= ca < k,
            0 <= cb < k,
            0 <= ra < 16,
            0 <= rb < 16,
            0 <= la,
            0 <= lb,
            k > 0,
    ;
}

impl crate::sort::SortKey for Finding {
    fn key_le(&self, other: &Self) -> (res: bool) {
        let a = self.location();
        let b = other.location();
        let (line_a, col_a, line_b, col_b) = (a.line(), a.col(), b.line(), b.col());
        proof {
            lemma_output_key_order(self@, other@);
        }
        line_a < line_b || (line_a == line_b && (col_a < col_b || (col_a == col_b
            && self.rule().rank() <= other.rule().rank())))
    }
}

} // verus!
