use vstd::prelude::*;

use crate::document::{block_views, document_wf, line_texts, Document, DocumentView};
use crate::finding::{Finding, FindingMessage, FindingView};
use crate::rule_id::RuleId;
use crate::rules::coverage::{advance, code_blocks, cover_choice, covered, lemma_reach_covers, Cover};
use crate::rules::{finding_at, finding_views, found, lemma_push_finding, Rule};
use crate::text::{all_white, chars_of, is_all_whitespace};

verus! {

/// The most consecutive blank lines MD012 allows.
pub const MAXIMUM_BLANK_LINES: usize = 1;

/// How many consecutive blank lines outside code blocks end at line `number`: a line that is not
/// blank, or that a code block covers, ends the run.
pub open spec fn blank_run(doc: DocumentView, number: int) -> nat
    decreases number,
{
    if number <= 0 {
        0
    } else if covered(doc.blocks, number, code_blocks()) || !all_white(doc.lines[number - 1]) {
        0
    } else {
        blank_run(doc, number - 1) + 1
    }
}

/// MD012's findings among the first `count` lines: each blank line whose run exceeds the maximum,
/// at column 1, with the run so far.
pub open spec fn md012_upto(doc: DocumentView, count: int) -> Seq<FindingView>
    decreases count,
{
    if count <= 0 {
        Seq::empty()
    } else {
        md012_upto(doc, count - 1) + if blank_run(doc, count) > MAXIMUM_BLANK_LINES {
            seq![found(RuleId::Md012, count as nat, 1, FindingMessage::MultipleBlankLines {
                maximum: MAXIMUM_BLANK_LINES,
                found: blank_run(doc, count) as usize,
            })]
        } else {
            Seq::empty()
        }
    }
}

/// MD012's findings for a document, in line order.
pub open spec fn md012_findings(doc: DocumentView) -> Seq<FindingView> {
    md012_upto(doc, doc.lines.len() as int)
}

/// MD012 (`no-multiple-blanks`): more than one consecutive blank line outside code blocks.
///
/// A line is blank when it is empty or holds only whitespace. A line inside a code block, or a
/// line that is not blank, ends the run. Each blank line whose run count exceeds the maximum is
/// reported at column 1, with the count so far.
#[derive(Debug, Default, Clone, Copy)]
pub struct Md012;

impl Rule for Md012 {
    fn check(&self, doc: &Document) -> (res: Vec<Finding>)
        ensures
            finding_views(res@) == md012_findings(doc@),
    {
        let lines = doc.lines();
        let blocks = doc.blocks();
        let ghost texts = line_texts(lines@);
        let ghost views = block_views(blocks@);
        let cover = Cover::Code;
        let mut findings: Vec<Finding> = Vec::new();
        let mut pending: usize = 0;
        let mut code_through: usize = 0;
        let mut run: usize = 0;
        let mut index: usize = 0;
        while index < lines.len()
            invariant
                index <= lines@.len(),
                texts == line_texts(lines@),
                texts == doc@.lines,
                views == block_views(blocks@),
                views == doc@.blocks,
                document_wf(doc@),
                cover == Cover::Code,
                pending <= blocks@.len(),
                forall|i: int| 0 <= i < pending ==> (#[trigger] views[i]).first <= index,
                forall|i: int| pending <= i < blocks@.len() ==> (#[trigger] views[i]).first > index,
                code_through == crate::rules::coverage::reach(views, pending as int, cover_choice(cover)),
                run == blank_run(doc@, index as int),
                run <= index,
                finding_views(findings@) == md012_upto(doc@, index as int),
            decreases lines@.len() - index,
        {
            let number = index + 1;
            advance(blocks, &cover, &mut pending, &mut code_through, number);
            proof {
                lemma_reach_covers(views, pending as int, number as int, code_blocks());
            }
            let is_code = number <= code_through;
            let line = chars_of(lines[index].as_str());
            assert(line@ == texts[index as int]);
            if is_code || !is_all_whitespace(&line) {
                run = 0;
            } else {
                run = run + 1;
                if run > MAXIMUM_BLANK_LINES {
                    let finding = finding_at(
                        RuleId::Md012,
                        number,
                        1,
                        FindingMessage::MultipleBlankLines { maximum: MAXIMUM_BLANK_LINES, found: run },
                    );
                    proof {
                        lemma_push_finding(findings@, finding);
                    }
                    findings.push(finding);
                }
            }
            index = number;
            assert(finding_views(findings@) =~= md012_upto(doc@, index as int));
        }
        findings
    }
}

} // verus!
