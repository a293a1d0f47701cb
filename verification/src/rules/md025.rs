use vstd::prelude::*;

use crate::block::{kind_heading_level, kind_is_container, kind_is_html, BlockView, HeadingLevel};
use crate::document::{block_views, document_wf, line_texts, Document, DocumentView};
use crate::finding::{Finding, FindingMessage, FindingView};
use crate::rule_id::RuleId;
use crate::rules::coverage::{covered, lemma_reach_covers, reach};
use crate::rules::line_text::{comment_block, is_comment_block};
use crate::rules::{finding_at, finding_views, found, lemma_push_finding, Rule};
use crate::sort::{key_sorted, SpecKey};
use crate::text::{all_white, chars_of, is_all_whitespace};

verus! {

/// Whether a block is a level-1 heading.
pub open spec fn is_top_level(block: BlockView) -> bool {
    kind_heading_level(block.kind) == Some(HeadingLevel::H1)
}

/// The index of the first level-1 heading among the first `count` blocks, if any.
pub open spec fn first_top_level(blocks: Seq<BlockView>, count: int) -> Option<int>
    decreases count,
{
    if count <= 0 {
        None
    } else {
        match first_top_level(blocks, count - 1) {
            Some(index) => Some(index),
            None => if is_top_level(blocks[count - 1]) {
                Some(count - 1)
            } else {
                None
            },
        }
    }
}

/// The HTML blocks of a document with lines `lines` that hold one comment and nothing else.
pub open spec fn comment_blocks(lines: Seq<Seq<char>>) -> spec_fn(BlockView) -> bool {
    |block: BlockView| kind_is_html(block.kind) && comment_block(lines.subrange(block.first - 1, block.last as int))
}

/// Whether a container block before block `index` reaches its first line, so that it is nested.
pub open spec fn is_nested(blocks: Seq<BlockView>, index: int) -> bool {
    exists|j: int|
        0 <= j < index && kind_is_container((#[trigger] blocks[j]).kind) && blocks[j].last >= blocks[index].first
}

/// Whether every line before line `first_line` is whitespace, or lies in an HTML block holding
/// nothing but a comment.
pub open spec fn clear_before(doc: DocumentView, first_line: int) -> bool {
    forall|number: int|
        1 <= number < first_line ==> covered(doc.blocks, number, comment_blocks(doc.lines)) || all_white(
            #[trigger] doc.lines[number - 1],
        )
}

/// MD025's findings for the blocks after the title, up to block `count`: each level-1 heading at
/// column 1 of its first line.
pub open spec fn md025_after(blocks: Seq<BlockView>, title: int, count: int) -> Seq<FindingView>
    decreases count - title,
{
    if count <= title + 1 {
        Seq::empty()
    } else {
        md025_after(blocks, title, count - 1) + if is_top_level(blocks[count - 1]) {
            seq![found(RuleId::Md025, blocks[count - 1].first, 1, FindingMessage::MultipleTopLevelHeadings)]
        } else {
            Seq::empty()
        }
    }
}

/// MD025's findings for a document. The first level-1 heading is the title only when no container
/// holds it and everything before it is blank lines or HTML comments. Without such a title nothing
/// is reported; with one, every later level-1 heading is.
pub open spec fn md025_findings(doc: DocumentView) -> Seq<FindingView> {
    match first_top_level(doc.blocks, doc.blocks.len() as int) {
        None => Seq::empty(),
        Some(title) => if is_nested(doc.blocks, title) || !clear_before(doc, doc.blocks[title].first as int) {
            Seq::empty()
        } else {
            md025_after(doc.blocks, title, doc.blocks.len() as int)
        },
    }
}

proof fn lemma_first_top_level(blocks: Seq<BlockView>, count: int)
    requires
        0 <= count <= blocks.len(),
    ensures
        first_top_level(blocks, count) matches Some(index) ==> 0 <= index < count && is_top_level(blocks[index]),
        first_top_level(blocks, count) is None ==> forall|i: int| 0 <= i < count ==> !is_top_level(#[trigger] blocks[i]),
    decreases count,
{
    if count > 0 {
        lemma_first_top_level(blocks, count - 1);
    }
}

proof fn lemma_first_top_level_stays(blocks: Seq<BlockView>, index: int, count: int)
    requires
        0 <= index < count <= blocks.len(),
        first_top_level(blocks, index + 1) == Some(index),
    ensures
        first_top_level(blocks, count) == Some(index),
    decreases count,
{
    if count > index + 1 {
        lemma_first_top_level_stays(blocks, index, count - 1);
    }
}

/// MD025 (`single-h1`): a document whose first content is a level-1 heading has another level-1
/// heading later on.
#[derive(Debug, Default, Clone, Copy)]
pub struct Md025;

/// Whether every line before `first_line` is whitespace or lies in an HTML comment block, in one
/// pass over lines and blocks together.
fn only_blank_lines_and_comments_before(doc: &Document, first_line: usize) -> (res: bool)
    requires
        1 <= first_line <= doc@.lines.len() + 1,
    ensures
        res == clear_before(doc@, first_line as int),
{
    let lines = doc.lines();
    let blocks = doc.blocks();
    let ghost texts = line_texts(lines@);
    let ghost views = block_views(blocks@);
    let ghost chosen = comment_blocks(texts);
    let mut pending: usize = 0;
    let mut commented_through: usize = 0;
    let mut number: usize = 1;
    while number < first_line
        invariant
            1 <= number <= first_line,
            first_line <= texts.len() + 1,
            texts == line_texts(lines@),
            texts == doc@.lines,
            views == block_views(blocks@),
            views == doc@.blocks,
            document_wf(doc@),
            chosen == comment_blocks(texts),
            pending <= blocks@.len(),
            forall|i: int| 0 <= i < pending ==> (#[trigger] views[i]).first < number,
            forall|i: int| pending <= i < blocks@.len() ==> (#[trigger] views[i]).first >= number,
            commented_through == reach(views, pending as int, chosen),
            forall|n: int| 1 <= n < number ==> covered(views, n, chosen) || all_white(#[trigger] texts[n - 1]),
        decreases first_line - number,
    {
        while pending < blocks.len() && blocks[pending].lines().first() <= number
            invariant
                1 <= number < first_line,
                first_line <= texts.len() + 1,
                texts == line_texts(lines@),
                texts == doc@.lines,
                views == block_views(blocks@),
                document_wf(doc@),
                views == doc@.blocks,
                chosen == comment_blocks(texts),
                pending <= blocks@.len(),
                forall|i: int| 0 <= i < pending ==> (#[trigger] views[i]).first <= number,
                forall|i: int| pending <= i < blocks@.len() ==> (#[trigger] views[i]).first >= number,
                commented_through == reach(views, pending as int, chosen),
            decreases blocks@.len() - pending,
        {
            let block = blocks[pending];
            assert(block@ == views[pending as int]);
            let span = block.lines();
            let first = span.first();
            let last = span.last();
            assert(1 <= doc@.blocks[pending as int].first);
            assert(views[pending as int].last <= texts.len());
            if block.kind().is_html() {
                let block_lines = &lines[first - 1..last];
                assert(line_texts(block_lines@) =~= texts.subrange(first - 1, last as int));
                if is_comment_block(block_lines) && last > commented_through {
                    commented_through = last;
                }
            }
            pending = pending + 1;
        }
        proof {
            if pending < blocks@.len() {
                assert forall|i: int| pending <= i < blocks@.len() implies (#[trigger] views[i]).first > number by {
                    assert(views[pending as int].sort_key() <= views[i].sort_key());
                }
            }
            lemma_reach_covers(views, pending as int, number as int, chosen);
        }
        if number > commented_through {
            let line = chars_of(lines[number - 1].as_str());
            assert(line@ == texts[number - 1]);
            if !is_all_whitespace(&line) {
                return false;
            }
        }
        number = number + 1;
    }
    true
}

impl Rule for Md025 {
    fn check(&self, doc: &Document) -> (res: Vec<Finding>)
        ensures
            finding_views(res@) == md025_findings(doc@),
    {
        let blocks = doc.blocks();
        let ghost views = block_views(blocks@);
        let mut title: usize = 0;
        while title < blocks.len() && blocks[title].kind().heading_level() != Some(HeadingLevel::H1)
            invariant
                title <= blocks@.len(),
                views == block_views(blocks@),
                first_top_level(views, title as int) is None,
            decreases blocks@.len() - title,
        {
            assert(blocks@[title as int]@ == views[title as int]);
            title = title + 1;
        }
        if title == blocks.len() {
            let none: Vec<Finding> = Vec::new();
            assert(views.len() == title);
            assert(finding_views(none@) =~= md025_findings(doc@));
            return none;
        }
        assert(blocks@[title as int]@ == views[title as int]);
        assert(first_top_level(views, title + 1) == Some(title as int));
        proof {
            lemma_first_top_level_stays(views, title as int, views.len() as int);
        }
        let first_line = blocks[title].lines().first();
        let mut nested = false;
        let mut j: usize = 0;
        while j < title
            invariant
                j <= title < blocks@.len(),
                views == block_views(blocks@),
                first_line == views[title as int].first,
                nested == exists|k: int|
                    0 <= k < j && kind_is_container((#[trigger] views[k]).kind) && views[k].last >= first_line,
            decreases title - j,
        {
            let block = blocks[j];
            assert(block@ == views[j as int]);
            if block.kind().is_container() && block.lines().last() >= first_line {
                nested = true;
            }
            j = j + 1;
        }
        let none: Vec<Finding> = Vec::new();
        if nested {
            assert(finding_views(none@) =~= md025_findings(doc@));
            return none;
        }
        proof {
            assert(document_wf(doc@));
            assert(views[title as int].last <= doc@.lines.len());
        }
        if !only_blank_lines_and_comments_before(doc, first_line) {
            assert(finding_views(none@) =~= md025_findings(doc@));
            return none;
        }
        let mut findings: Vec<Finding> = Vec::new();
        let mut index = title + 1;
        while index < blocks.len()
            invariant
                title < index <= blocks@.len(),
                views == block_views(blocks@),
                finding_views(findings@) == md025_after(views, title as int, index as int),
            decreases blocks@.len() - index,
        {
            let block = blocks[index];
            assert(block@ == views[index as int]);
            if block.kind().heading_level() == Some(HeadingLevel::H1) {
                let finding = finding_at(
                    RuleId::Md025,
                    block.lines().first(),
                    1,
                    FindingMessage::MultipleTopLevelHeadings,
                );
                proof {
                    lemma_push_finding(findings@, finding);
                }
                findings.push(finding);
            }
            index = index + 1;
            assert(finding_views(findings@) =~= md025_after(views, title as int, index as int));
        }
        findings
    }
}

} // verus!
