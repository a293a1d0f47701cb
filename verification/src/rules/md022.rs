use vstd::prelude::*;

use crate::block::{kind_heading_level, BlockView};
use crate::document::{block_views, document_wf, line_texts, Document, DocumentView};
use crate::finding::{Finding, FindingMessage, FindingView};
use crate::rule_id::RuleId;
use crate::rules::line_text::{blank_line, is_blank_line};
use crate::rules::{finding_at, finding_views, found, lemma_push_finding, Rule};

verus! {

/// MD022's findings for block `index`: for a heading, one when the line directly above its first
/// line exists and is not blank, then one when the line directly below its last line exists and is
/// not blank, both at column 1 of the heading's first line.
pub open spec fn md022_block(doc: DocumentView, index: int) -> Seq<FindingView> {
    let block = doc.blocks[index];
    if kind_heading_level(block.kind) is Some {
        (if block.first > 1 && !blank_line(doc.lines[block.first - 2]) {
            seq![found(RuleId::Md022, block.first, 1, FindingMessage::MissingBlankLineAboveHeading)]
        } else {
            Seq::empty()
        }) + if block.last < doc.lines.len() && !blank_line(doc.lines[block.last as int]) {
            seq![found(RuleId::Md022, block.first, 1, FindingMessage::MissingBlankLineBelowHeading)]
        } else {
            Seq::empty()
        }
    } else {
        Seq::empty()
    }
}

/// MD022's findings among the first `count` blocks, in block order.
pub open spec fn md022_upto(doc: DocumentView, count: int) -> Seq<FindingView>
    decreases count,
{
    if count <= 0 {
        Seq::empty()
    } else {
        md022_upto(doc, count - 1) + md022_block(doc, count - 1)
    }
}

/// MD022's findings for a document, in block order.
pub open spec fn md022_findings(doc: DocumentView) -> Seq<FindingView> {
    md022_upto(doc, doc.blocks.len() as int)
}

/// The document with the same lines whose only block is `block`.
pub open spec fn alone(doc: DocumentView, block: BlockView) -> DocumentView {
    DocumentView { blocks: seq![block], ..doc }
}

/// A heading alone in a document is reported once above when the line directly above its first
/// line exists and is not blank, then once below when the line directly below its last line
/// exists and is not blank, both at column 1 of its first line; any other block alone gives
/// nothing.
pub proof fn lemma_md022_lone_block(doc: DocumentView, block: BlockView)
    ensures
        md022_findings(alone(doc, block)) == if kind_heading_level(block.kind) is Some {
            (if block.first > 1 && !blank_line(doc.lines[block.first - 2]) {
                seq![found(RuleId::Md022, block.first, 1, FindingMessage::MissingBlankLineAboveHeading)]
            } else {
                Seq::empty()
            }) + if block.last < doc.lines.len() && !blank_line(doc.lines[block.last as int]) {
                seq![found(RuleId::Md022, block.first, 1, FindingMessage::MissingBlankLineBelowHeading)]
            } else {
                Seq::empty()
            }
        } else {
            Seq::empty()
        },
{
    let single = alone(doc, block);
    assert(single.blocks[0] == block);
    assert(md022_upto(single, 0) + md022_block(single, 0) =~= md022_block(single, 0));
}

/// Each heading is judged alone, on the lines around it, whatever other blocks start or end
/// next to it: a document's findings are, block after block, the findings each block has when it
/// is the only block of a document with the same lines.
pub proof fn lemma_md022_judges_each_block_alone(doc: DocumentView, count: int)
    requires
        0 <= count <= doc.blocks.len(),
    ensures
        md022_upto(doc, 0) == Seq::<FindingView>::empty(),
        count > 0 ==> md022_upto(doc, count) == md022_upto(doc, count - 1) + md022_findings(
            alone(doc, doc.blocks[count - 1]),
        ),
        md022_findings(doc) == md022_upto(doc, doc.blocks.len() as int),
{
    if count > 0 {
        let single = alone(doc, doc.blocks[count - 1]);
        assert(single.blocks[0] == doc.blocks[count - 1]);
        assert(md022_upto(single, 0) + md022_block(single, 0) =~= md022_block(single, 0));
    }
}

/// MD022 (`blanks-around-headings`): a heading has no blank line directly above it or directly
/// below it.
///
/// One blank line is required on each side. Extra blank lines are allowed, and a heading at the
/// very start or the very end of a file needs none beyond the file's edge. For a heading
/// underlined with `=` or `-`, the line below is the one after the underline. Both findings are
/// reported at column 1 of the heading's first line, the one above before the one below.
#[derive(Debug, Default, Clone, Copy)]
pub struct Md022;

impl Rule for Md022 {
    fn check(&self, doc: &Document) -> (res: Vec<Finding>)
        ensures
            finding_views(res@) == md022_findings(doc@),
    {
        let lines = doc.lines();
        let blocks = doc.blocks();
        let ghost texts = line_texts(lines@);
        let ghost views = block_views(blocks@);
        let last_line = lines.len();
        let mut findings: Vec<Finding> = Vec::new();
        let mut index: usize = 0;
        while index < blocks.len()
            invariant
                index <= blocks@.len(),
                texts == line_texts(lines@),
                texts == doc@.lines,
                last_line == lines@.len(),
                views == block_views(blocks@),
                views == doc@.blocks,
                document_wf(doc@),
                finding_views(findings@) == md022_upto(doc@, index as int),
            decreases blocks@.len() - index,
        {
            let block = blocks[index];
            assert(block@ == views[index as int]);
            if block.kind().heading_level().is_some() {
                let span = block.lines();
                let first = span.first();
                let last = span.last();
                assert(1 <= views[index as int].first <= views[index as int].last <= texts.len());
                if first > 1 && !is_blank_line(lines[first - 2].as_str()) {
                    let finding = finding_at(RuleId::Md022, first, 1, FindingMessage::MissingBlankLineAboveHeading);
                    proof {
                        lemma_push_finding(findings@, finding);
                    }
                    findings.push(finding);
                }
                if last < last_line && !is_blank_line(lines[last].as_str()) {
                    let finding = finding_at(RuleId::Md022, first, 1, FindingMessage::MissingBlankLineBelowHeading);
                    proof {
                        lemma_push_finding(findings@, finding);
                    }
                    findings.push(finding);
                }
            }
            index = index + 1;
            assert(finding_views(findings@) =~= md022_upto(doc@, index as int));
        }
        findings
    }
}

} // verus!
