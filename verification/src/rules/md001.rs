use vstd::prelude::*;

use crate::block::{kind_heading_level, level_number, level_of_number, HeadingLevel, BlockView};
use crate::document::{block_views, Document, DocumentView};
use crate::finding::{Finding, FindingMessage, FindingView};
use crate::rule_id::RuleId;
use crate::rules::{finding_at, finding_views, found, lemma_push_finding, Rule};

verus! {

/// The level of the last heading among the first `count` blocks, if any.
pub open spec fn previous_level(blocks: Seq<BlockView>, count: int) -> Option<HeadingLevel>
    decreases count,
{
    if count <= 0 {
        None
    } else {
        match kind_heading_level(blocks[count - 1].kind) {
            Some(level) => Some(level),
            None => previous_level(blocks, count - 1),
        }
    }
}

/// MD001's finding for block `index`: when it is a heading more than one level deeper than the
/// heading before it, at column 1 of its first line, naming the level one deeper than the one
/// before and the level found.
pub open spec fn md001_block(blocks: Seq<BlockView>, index: int) -> Seq<FindingView> {
    match (kind_heading_level(blocks[index].kind), previous_level(blocks, index)) {
        (Some(level), Some(before)) => if level_number(level) > level_number(before) + 1 {
            match level_of_number(level_number(before) + 1) {
                Some(expected) => seq![found(RuleId::Md001, blocks[index].first, 1, FindingMessage::HeadingLevelSkipped {
                    expected,
                    found: level,
                })],
                None => Seq::empty(),
            }
        } else {
            Seq::empty()
        },
        _ => Seq::empty(),
    }
}

/// MD001's findings among the first `count` blocks, in block order.
pub open spec fn md001_upto(blocks: Seq<BlockView>, count: int) -> Seq<FindingView>
    decreases count,
{
    if count <= 0 {
        Seq::empty()
    } else {
        md001_upto(blocks, count - 1) + md001_block(blocks, count - 1)
    }
}

/// MD001's findings for a document, in block order.
pub open spec fn md001_findings(doc: DocumentView) -> Seq<FindingView> {
    md001_upto(doc.blocks, doc.blocks.len() as int)
}

/// Whether block `j` is the closest heading before block `i`: a heading, earlier, with no heading
/// between the two.
pub open spec fn closest_heading_before(blocks: Seq<BlockView>, j: int, i: int) -> bool {
    &&& 0 <= j < i
    &&& kind_heading_level(blocks[j].kind) is Some
    &&& forall|k: int| j < k < i ==> kind_heading_level(#[trigger] blocks[k].kind) is None
}

proof fn lemma_previous_is_closest(blocks: Seq<BlockView>, j: int, count: int)
    requires
        j < count <= blocks.len(),
        closest_heading_before(blocks, j, count),
    ensures
        previous_level(blocks, count) == kind_heading_level(blocks[j].kind),
    decreases count,
{
    if count - 1 > j {
        lemma_previous_is_closest(blocks, j, count - 1);
    }
}

proof fn lemma_no_heading_before(blocks: Seq<BlockView>, count: int)
    requires
        count <= blocks.len(),
        forall|k: int| 0 <= k < count ==> kind_heading_level(#[trigger] blocks[k].kind) is None,
    ensures
        previous_level(blocks, count) is None,
    decreases count,
{
    if count > 0 {
        lemma_no_heading_before(blocks, count - 1);
    }
}

/// Each heading is compared with the closest heading before it, whatever headings came earlier:
/// the findings up to block `i` gain one exactly when block `i` is a heading more than one level
/// deeper than that closest heading, naming the level one deeper than that heading's and the
/// level found, at column 1 of its first line. A heading with no heading before it, and a block
/// that is not a heading, add nothing.
pub proof fn lemma_md001_compares_with_closest_heading(blocks: Seq<BlockView>, i: int)
    requires
        0 <= i < blocks.len(),
    ensures
        kind_heading_level(blocks[i].kind) is None ==> md001_upto(blocks, i + 1) == md001_upto(
            blocks,
            i,
        ),
        (forall|k: int| 0 <= k < i ==> kind_heading_level(#[trigger] blocks[k].kind) is None)
            ==> md001_upto(blocks, i + 1) == md001_upto(blocks, i),
        forall|j: int|
            #![trigger closest_heading_before(blocks, j, i)]
            closest_heading_before(blocks, j, i) && kind_heading_level(blocks[i].kind) is Some ==> {
                let level = kind_heading_level(blocks[i].kind)->0;
                let before = kind_heading_level(blocks[j].kind)->0;
                md001_upto(blocks, i + 1) == md001_upto(blocks, i) + if level_number(level)
                    > level_number(before) + 1 {
                    seq![
                        found(
                            RuleId::Md001,
                            blocks[i].first,
                            1,
                            FindingMessage::HeadingLevelSkipped {
                                expected: level_of_number(level_number(before) + 1)->0,
                                found: level,
                            },
                        ),
                    ]
                } else {
                    Seq::empty()
                }
            },
{
    assert forall|j: int|
        #![trigger closest_heading_before(blocks, j, i)]
        closest_heading_before(blocks, j, i) && kind_heading_level(blocks[i].kind) is Some implies {
            let level = kind_heading_level(blocks[i].kind)->0;
            let before = kind_heading_level(blocks[j].kind)->0;
            md001_upto(blocks, i + 1) == md001_upto(blocks, i) + if level_number(level) > level_number(
                before,
            ) + 1 {
                seq![
                    found(
                        RuleId::Md001,
                        blocks[i].first,
                        1,
                        FindingMessage::HeadingLevelSkipped {
                            expected: level_of_number(level_number(before) + 1)->0,
                            found: level,
                        },
                    ),
                ]
            } else {
                Seq::empty()
            }
        } by {
        lemma_previous_is_closest(blocks, j, i);
    }
    if forall|k: int| 0 <= k < i ==> kind_heading_level(#[trigger] blocks[k].kind) is None {
        lemma_no_heading_before(blocks, i);
    }
}

/// MD001 (`heading-increment`): a heading is more than one level deeper than the heading before
/// it, so a level is skipped.
///
/// Headings are read in document order. The first heading may have any level, and moving back up
/// any number of levels is allowed. A heading that is reported still sets the level the next
/// heading is compared against. The finding is reported at column 1 of the heading's first line.
#[derive(Debug, Default, Clone, Copy)]
pub struct Md001;

impl Rule for Md001 {
    fn check(&self, doc: &Document) -> (res: Vec<Finding>)
        ensures
            finding_views(res@) == md001_findings(doc@),
    {
        let blocks = doc.blocks();
        let ghost views = block_views(blocks@);
        let mut findings: Vec<Finding> = Vec::new();
        let mut previous: Option<HeadingLevel> = None;
        let mut index: usize = 0;
        while index < blocks.len()
            invariant
                index <= blocks@.len(),
                views == block_views(blocks@),
                views == doc@.blocks,
                previous == previous_level(views, index as int),
                finding_views(findings@) == md001_upto(views, index as int),
            decreases blocks@.len() - index,
        {
            let block = blocks[index];
            assert(block@ == views[index as int]);
            if let Some(level) = block.kind().heading_level() {
                if let Some(before) = previous {
                    if level.number() > before.number() + 1 {
                        if let Some(expected) = before.deeper() {
                            let finding = finding_at(
                                RuleId::Md001,
                                block.lines().first(),
                                1,
                                FindingMessage::HeadingLevelSkipped { expected, found: level },
                            );
                            proof {
                                lemma_push_finding(findings@, finding);
                            }
                            findings.push(finding);
                        }
                    }
                }
                previous = Some(level);
            }
            index = index + 1;
            assert(finding_views(findings@) =~= md001_upto(views, index as int));
        }
        findings
    }
}

} // verus!
