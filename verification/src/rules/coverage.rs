//! Which lines the blocks of a chosen kind cover, found in one pass over lines and blocks
//! together: the blocks are ordered by first line, so a cursor over them and the furthest last
//! line among the chosen blocks seen so far answer the question for each line in turn.
use vstd::prelude::*;

use crate::block::{kind_is_code, kind_is_html, Block, BlockView};
use crate::document::block_views;
use crate::sort::{key_sorted, SpecKey};

verus! {

/// Whether some block of `blocks` that `chosen` picks spans line `number`.
pub open spec fn covered(blocks: Seq<BlockView>, number: int, chosen: spec_fn(BlockView) -> bool) -> bool {
    exists|i: int|
        0 <= i < blocks.len() && chosen(#[trigger] blocks[i]) && blocks[i].first <= number
            <= blocks[i].last
}

/// The furthest last line among the chosen blocks of the first `count` blocks, or 0.
pub open spec fn reach(blocks: Seq<BlockView>, count: int, chosen: spec_fn(BlockView) -> bool) -> int
    decreases count,
{
    if count <= 0 {
        0
    } else {
        let before = reach(blocks, count - 1, chosen);
        if chosen(blocks[count - 1]) && blocks[count - 1].last > before {
            blocks[count - 1].last as int
        } else {
            before
        }
    }
}

/// The blocks whose lines are code.
pub open spec fn code_blocks() -> spec_fn(BlockView) -> bool {
    |block: BlockView| kind_is_code(block.kind)
}

/// The blocks whose lines are code or raw HTML.
pub open spec fn code_or_html_blocks() -> spec_fn(BlockView) -> bool {
    |block: BlockView| kind_is_code(block.kind) || kind_is_html(block.kind)
}

/// Which blocks a cursor follows.
pub enum Cover {
    /// Code blocks.
    Code,
    /// Code blocks and HTML blocks.
    CodeOrHtml,
}

/// The blocks a [`Cover`] picks.
pub open spec fn cover_choice(cover: Cover) -> spec_fn(BlockView) -> bool {
    match cover {
        Cover::Code => code_blocks(),
        Cover::CodeOrHtml => code_or_html_blocks(),
    }
}

proof fn lemma_reach_bounds(blocks: Seq<BlockView>, count: int, chosen: spec_fn(BlockView) -> bool)
    requires
        0 <= count <= blocks.len(),
    ensures
        forall|i: int| 0 <= i < count && chosen(#[trigger] blocks[i]) ==> blocks[i].last <= reach(blocks, count, chosen),
        reach(blocks, count, chosen) == 0 || exists|i: int|
            0 <= i < count && chosen(#[trigger] blocks[i]) && blocks[i].last == reach(blocks, count, chosen),
        reach(blocks, count, chosen) >= 0,
    decreases count,
{
    if count > 0 {
        lemma_reach_bounds(blocks, count - 1, chosen);
    }
}

/// When the first `count` blocks are exactly those starting at or before line `number`, the line
/// is covered exactly when it is at most the reach of those blocks.
pub proof fn lemma_reach_covers(blocks: Seq<BlockView>, count: int, number: int, chosen: spec_fn(BlockView) -> bool)
    requires
        0 <= count <= blocks.len(),
        number >= 1,
        forall|i: int| 0 <= i < count ==> (#[trigger] blocks[i]).first <= number,
        forall|i: int| count <= i < blocks.len() ==> (#[trigger] blocks[i]).first > number,
    ensures
        covered(blocks, number, chosen) <==> number <= reach(blocks, count, chosen),
{
    lemma_reach_bounds(blocks, count, chosen);
    if covered(blocks, number, chosen) {
        let i = choose|i: int|
            0 <= i < blocks.len() && chosen(#[trigger] blocks[i]) && blocks[i].first <= number
                <= blocks[i].last;
        assert(i < count);
    }
    if number <= reach(blocks, count, chosen) {
        let i = choose|i: int|
            0 <= i < count && chosen(#[trigger] blocks[i]) && blocks[i].last == reach(blocks, count, chosen);
        assert(blocks[i].first <= number <= blocks[i].last);
    }
}

/// Whether `block` is one that `cover` follows.
fn follows(cover: &Cover, block: &Block) -> (res: bool)
    ensures
        res == (cover_choice(*cover))(block@),
{
    let kind = block.kind();
    match cover {
        Cover::Code => kind.is_code(),
        Cover::CodeOrHtml => kind.is_code() || kind.is_html(),
    }
}

/// Moves the cursor `pending` past every block that starts at or before line `number`, raising
/// `through` to the reach of the blocks passed.
pub fn advance(
    blocks: &[Block],
    cover: &Cover,
    pending: &mut usize,
    through: &mut usize,
    number: usize,
)
    requires
        key_sorted(block_views(blocks@)),
        *old(pending) <= blocks@.len(),
        forall|i: int| 0 <= i < *old(pending) ==> (#[trigger] block_views(blocks@)[i]).first <= number,
        forall|i: int| *old(pending) <= i < blocks@.len() ==> (#[trigger] block_views(blocks@)[i]).first >= number,
        *old(through) == reach(block_views(blocks@), *old(pending) as int, cover_choice(*cover)),
    ensures
        *final(pending) <= blocks@.len(),
        forall|i: int| 0 <= i < *final(pending) ==> (#[trigger] block_views(blocks@)[i]).first <= number,
        forall|i: int| *final(pending) <= i < blocks@.len() ==> (#[trigger] block_views(blocks@)[i]).first > number,
        *final(through) == reach(block_views(blocks@), *final(pending) as int, cover_choice(*cover)),
{
    let ghost views = block_views(blocks@);
    while *pending < blocks.len() && blocks[*pending].lines().first() <= number
        invariant
            views == block_views(blocks@),
            key_sorted(views),
            *pending <= blocks@.len(),
            forall|i: int| 0 <= i < *pending ==> (#[trigger] views[i]).first <= number,
            forall|i: int| *pending <= i < blocks@.len() ==> (#[trigger] views[i]).first >= number,
            *through == reach(views, *pending as int, cover_choice(*cover)),
        decreases blocks@.len() - *pending,
    {
        let block = blocks[*pending];
        assert(block@ == views[*pending as int]);
        if follows(cover, &block) {
            let last = block.lines().last();
            if last > *through {
                *through = last;
            }
        }
        *pending = *pending + 1;
    }
    proof {
        if *pending < blocks@.len() {
            assert(views[*pending as int].first > number);
            assert forall|i: int| *pending <= i < blocks@.len() implies (#[trigger] views[i]).first > number by {
                assert(views[*pending as int].sort_key() <= views[i].sort_key());
            }
        }
    }
}

} // verus!
