//! A Markdown style linter: it splits a source into lines, places the blocks a Markdown parser
//! finds onto those lines, and checks the document against a fixed set of rules (heading
//! increments, trailing whitespace, hard tabs, blank-line runs, line length, spacing after a
//! heading's hashes, blank lines around headings, a single top-level heading, and the final
//! newline).
//!
//! Every rule states its findings exactly, as a function of the document. A run over many inputs
//! is a state machine ([`LintRun`]) that decides what to do next from what came of the last
//! action; [`run_lint`] drives it through the ports a caller implements, so the reading, parsing
//! and writing stay with the caller.
mod block;
mod document;
mod finding;
mod location;
mod rule_id;
mod sort;
mod text;

pub mod application;
pub mod markdown;
pub mod rules;

pub use application::fault::{LintFault, ReadFault, ReportFault, WalkFault};
pub use application::format::{decide_exit_code, format_finding, format_finding_with_path};
pub use application::ports::{MarkdownParser, Reporter, SourceReader, Walker};
pub use application::run::{
    run_lint, FileFindings, LintAction, LintEvent, LintOutcome, LintRun, Stage,
};
pub use application::source::{
    admit_regular_file, admit_size, not_regular_file, source_from_bytes, too_large, unreadable,
    MAX_FILE_BYTES,
};
pub use application::walk::{
    is_markdown_extension, DirectoryWalk, EntryKind, WalkAction, WalkEvent, WalkStage,
};
pub use block::{Block, BlockKind, BlockView, HeadingLevel, LineSpan, LineSpanView};
pub use document::{Document, DocumentView};
pub use finding::{Finding, FindingMessage, FindingView};
pub use location::{Location, LocationError, LocationView};
pub use markdown::PulldownMarkdownParser;
pub use rule_id::RuleId;
pub use rules::{
    check_document, check_in_output_order, sort_file_findings, Md001, Md009, Md010, Md012, Md013,
    Md018, Md022, Md025, Md047, Rule,
};
