use vstd::prelude::*;

use crate::document::{Document, DocumentView, line_texts};
use crate::finding::{Finding, FindingMessage, FindingView};
use crate::rule_id::RuleId;
use crate::rules::{finding_at, finding_views, found, Rule};
use crate::text::chars_of;

verus! {

/// MD047's findings for a document: none for an empty source or exactly one trailing newline;
/// otherwise one on the last line, at the end of its text when the newline is missing, or at
/// column 1 when there is more than one.
pub open spec fn md047_findings(doc: DocumentView) -> Seq<FindingView> {
    let line = if doc.lines.len() >= 1 { doc.lines.len() } else { 1 };
    if doc.source_is_empty || doc.trailing_newline_count == 1 {
        Seq::empty()
    } else if doc.trailing_newline_count == 0 {
        let last = if doc.lines.len() >= 1 { doc.lines.last() } else { Seq::empty() };
        if last.len() < usize::MAX {
            seq![found(RuleId::Md047, line, last.len() + 1, FindingMessage::MissingTrailingNewline)]
        } else {
            Seq::empty()
        }
    } else {
        seq![found(RuleId::Md047, line, 1, FindingMessage::MultipleTrailingNewlines)]
    }
}

/// MD047 (`single-trailing-newline`): a file must end with exactly one trailing newline.
///
/// A completely empty file (zero bytes) is not flagged: there is no content for a trailing
/// newline to apply to.
#[derive(Debug, Default, Clone, Copy)]
pub struct Md047;

impl Rule for Md047 {
    fn check(&self, doc: &Document) -> (res: Vec<Finding>)
        ensures
            finding_views(res@) == md047_findings(doc@),
    {
        if doc.source_is_empty() {
            let none: Vec<Finding> = Vec::new();
            assert(finding_views(none@) =~= md047_findings(doc@));
            return none;
        }
        let lines = doc.lines();
        let ghost texts = line_texts(lines@);
        assert(texts == doc@.lines);
        let count = doc.trailing_newline_count();
        let line_number = if lines.len() >= 1 { lines.len() } else { 1 };
        let mut findings: Vec<Finding> = Vec::new();
        if count == 1 {
        } else if count == 0 {
            let length = if lines.len() >= 1 {
                let last = chars_of(lines[lines.len() - 1].as_str());
                assert(last@ == texts.last());
                last.len()
            } else {
                0
            };
            if length < usize::MAX {
                findings.push(
                    finding_at(RuleId::Md047, line_number, length + 1, FindingMessage::MissingTrailingNewline),
                );
            }
        } else {
            findings.push(finding_at(RuleId::Md047, line_number, 1, FindingMessage::MultipleTrailingNewlines));
        }
        assert(finding_views(findings@) =~= md047_findings(doc@));
        findings
    }
}

} // verus!
