use std::ops::Range;

use vstd::prelude::*;

use crate::block::{Block, BlockKind, BlockView, LineSpan};
use crate::rules::line_text::joined;
use crate::sort::{
    is_stable_sort_of, key_sorted, lemma_with_key_contains, lemma_with_key_from, sort_stable, with_key,
    SortKey, SpecKey,
};
use crate::text::{chars_of, push_char};
use vstd::utf8::encode_utf8;

verus! {

/// The pieces of `s` between its `\n` characters: always one more piece than there are newlines.
pub open spec fn split_pieces(s: Seq<char>) -> Seq<Seq<char>>
    decreases s.len(),
{
    if s.len() == 0 {
        seq![Seq::<char>::empty()]
    } else {
        let before = split_pieces(s.drop_last());
        if s.last() == '\n' {
            before.push(Seq::<char>::empty())
        } else {
            before.update(before.len() - 1, before.last().push(s.last()))
        }
    }
}

/// The texts of a sequence of strings.
pub open spec fn line_texts(lines: Seq<String>) -> Seq<Seq<char>> {
    lines.map_values(|line: String| line@)
}

/// The values of a sequence of blocks.
pub open spec fn block_views(blocks: Seq<Block>) -> Seq<BlockView> {
    blocks.map_values(|block: Block| block@)
}

/// Splitting always gives at least one piece.
pub proof fn lemma_pieces_nonempty(s: Seq<char>)
    ensures
        split_pieces(s).len() >= 1,
    decreases s.len(),
{
    if s.len() > 0 {
        lemma_pieces_nonempty(s.drop_last());
    }
}

/// Joining the pieces of `s` with `\n` between them gives `s` back.
proof fn lemma_join_pieces(s: Seq<char>)
    ensures
        joined(split_pieces(s)) == s,
    decreases s.len(),
{
    if s.len() > 0 {
        let rest = s.drop_last();
        let before = split_pieces(rest);
        lemma_join_pieces(rest);
        lemma_pieces_nonempty(rest);
        assert(s =~= rest.push(s.last()));
        if s.last() == '\n' {
            let pieces = before.push(Seq::<char>::empty());
            assert(pieces.drop_last() =~= before);
            assert(joined(pieces) =~= rest + seq!['\n'] + Seq::<char>::empty());
        } else {
            let pieces = before.update(before.len() - 1, before.last().push(s.last()));
            if before.len() == 1 {
                assert(joined(pieces) =~= s);
            } else {
                assert(pieces.drop_last() =~= before.drop_last());
                assert(joined(pieces) =~= joined(before.drop_last()) + seq!['\n'] + before.last().push(
                    s.last(),
                ));
                assert(joined(pieces) =~= s);
            }
        }
    }
}

/// No piece of `s` holds a `\n`, and a piece holds a `\r` only where `s` does.
proof fn lemma_piece_chars(s: Seq<char>)
    ensures
        forall|i: int, j: int|
            0 <= i < split_pieces(s).len() && 0 <= j < split_pieces(s)[i].len() ==> {
                let c = #[trigger] split_pieces(s)[i][j];
                c != '\n' && (c == '\r' ==> s.contains('\r'))
            },
    decreases s.len(),
{
    if s.len() > 0 {
        let rest = s.drop_last();
        lemma_piece_chars(rest);
        lemma_pieces_nonempty(rest);
        let before = split_pieces(rest);
        assert forall|i: int, j: int|
            0 <= i < split_pieces(s).len() && 0 <= j < split_pieces(s)[i].len() implies {
                let c = #[trigger] split_pieces(s)[i][j];
                c != '\n' && (c == '\r' ==> s.contains('\r'))
            } by {
            if i < before.len() && j < before[i].len() {
                let c = before[i][j];
                if c == '\r' {
                    let k = choose|k: int| 0 <= k < rest.len() && rest[k] == '\r';
                    assert(s[k] == '\r');
                }
            } else {
                assert(split_pieces(s)[i][j] == s.last());
                assert(s[s.len() - 1] == s.last());
            }
        }
    }
}

/// A source's lines never hold a `\n`: the source is split at every one of them.
pub proof fn lemma_lines_hold_no_newline(s: Seq<char>)
    ensures
        forall|i: int, j: int|
            0 <= i < source_lines(s).len() && 0 <= j < source_lines(s)[i].len() ==> #[trigger] source_lines(
                s,
            )[i][j] != '\n',
{
    if s.len() > 0 {
        lemma_piece_chars(s);
        let pieces = split_pieces(s);
        let kept = if s.last() == '\n' { pieces.drop_last() } else { pieces };
        assert forall|i: int, j: int|
            0 <= i < source_lines(s).len() && 0 <= j < source_lines(s)[i].len() implies #[trigger] source_lines(
                s,
            )[i][j] != '\n' by {
            assert(source_lines(s)[i] == strip_cr(kept[i]));
            assert(kept[i] == pieces[i]);
            lemma_strip_cr(pieces[i]);
            assert(source_lines(s)[i][j] == pieces[i][j]);
        }
    }
}

/// No line of a source ends with a carriage return: every `\r` that ends a line is stripped
/// along with the line's terminator.
pub proof fn lemma_lines_end_without_carriage_return(s: Seq<char>)
    ensures
        forall|i: int|
            0 <= i < source_lines(s).len() ==> (#[trigger] source_lines(s)[i]).len() == 0
                || source_lines(s)[i].last() != '\r',
{
    if s.len() > 0 {
        let pieces = split_pieces(s);
        let kept = if s.last() == '\n' { pieces.drop_last() } else { pieces };
        assert forall|i: int| 0 <= i < source_lines(s).len() implies (#[trigger] source_lines(s)[i]).len()
            == 0 || source_lines(s)[i].last() != '\r' by {
            lemma_strip_cr(kept[i]);
        }
    }
}

/// A source without a carriage return is its lines joined with `\n`, followed by one more `\n`
/// when the source ends with a newline: splitting into lines loses nothing but the carriage
/// returns that end lines, and the count of trailing newlines beyond the first.
pub proof fn lemma_lines_rebuild_source(s: Seq<char>)
    requires
        !s.contains('\r'),
    ensures
        s == joined(source_lines(s)) + (if s.len() > 0 && s.last() == '\n' {
            seq!['\n']
        } else {
            Seq::<char>::empty()
        }),
{
    if s.len() == 0 {
        assert(joined(source_lines(s)) + Seq::<char>::empty() =~= s);
    } else {
        lemma_join_pieces(s);
        lemma_piece_chars(s);
        lemma_pieces_nonempty(s);
        let pieces = split_pieces(s);
        let kept = if s.last() == '\n' { pieces.drop_last() } else { pieces };
        assert forall|i: int| 0 <= i < kept.len() implies strip_cr(#[trigger] kept[i]) == kept[i] by {
            if kept[i].len() > 0 {
                assert(pieces[i][kept[i].len() - 1] != '\r');
            }
        }
        assert(source_lines(s) =~= kept);
        if s.last() == '\n' {
            lemma_pieces_nonempty(s.drop_last());
            assert(pieces.len() >= 2);
            assert(pieces.last() =~= Seq::<char>::empty());
            assert(joined(pieces) =~= joined(kept) + seq!['\n'] + Seq::<char>::empty());
            assert(s =~= joined(kept) + seq!['\n']);
        } else {
            assert(joined(kept) + Seq::<char>::empty() =~= s);
        }
    }
}

/// A line with every trailing carriage return removed.
pub open spec fn strip_cr(line: Seq<char>) -> Seq<char>
    decreases line.len(),
{
    if line.len() > 0 && line.last() == '\r' {
        strip_cr(line.drop_last())
    } else {
        line
    }
}

/// `n` carriage returns.
pub open spec fn carriage_returns(n: nat) -> Seq<char> {
    Seq::new(n, |_i: int| '\r')
}

/// Text that does not end with a carriage return keeps nothing of the carriage returns after it.
proof fn lemma_strip_carriage_returns(text: Seq<char>, n: nat)
    requires
        text.len() == 0 || text.last() != '\r',
    ensures
        strip_cr(text + carriage_returns(n)) == text,
    decreases n,
{
    if n == 0 {
        assert(text + carriage_returns(0) =~= text);
    } else {
        let with = text + carriage_returns(n);
        assert(with.last() == '\r');
        assert(with.drop_last() =~= text + carriage_returns((n - 1) as nat));
        lemma_strip_carriage_returns(text, (n - 1) as nat);
    }
}

/// Stripping keeps a prefix of the line, and leaves no carriage return at its end.
pub proof fn lemma_strip_cr(line: Seq<char>)
    ensures
        strip_cr(line) == line.take(strip_cr(line).len() as int),
        strip_cr(line).len() <= line.len(),
        strip_cr(line).len() > 0 ==> strip_cr(line).last() != '\r',
    decreases line.len(),
{
    if line.len() > 0 && line.last() == '\r' {
        lemma_strip_cr(line.drop_last());
        assert(strip_cr(line) =~= line.take(strip_cr(line).len() as int));
    } else {
        assert(line =~= line.take(line.len() as int));
    }
}

/// Every piece with its trailing carriage returns stripped.
pub open spec fn stripped_pieces(pieces: Seq<Seq<char>>) -> Seq<Seq<char>> {
    pieces.map_values(|line: Seq<char>| strip_cr(line))
}

/// The lines of a source: line `n` is the text after the `(n - 1)`th `\n`, without any trailing
/// `\r`; the empty text after a final `\n` is not a line, and an empty source has no lines.
pub open spec fn source_lines(s: Seq<char>) -> Seq<Seq<char>> {
    if s.len() == 0 {
        Seq::empty()
    } else {
        let pieces = split_pieces(s);
        let kept = if s.last() == '\n' { pieces.drop_last() } else { pieces };
        stripped_pieces(kept)
    }
}

/// How many `\n` characters end `s` consecutively.
pub open spec fn trailing_newlines(s: Seq<char>) -> nat
    decreases s.len(),
{
    if s.len() > 0 && s.last() == '\n' {
        1 + trailing_newlines(s.drop_last())
    } else {
        0
    }
}

/// How many `\n` bytes come before `offset` in `bytes`.
pub open spec fn newlines_before(bytes: Seq<u8>, offset: int) -> nat
    decreases offset,
{
    if offset <= 0 || bytes.len() == 0 {
        0
    } else if offset > bytes.len() {
        newlines_before(bytes, bytes.len() as int)
    } else {
        newlines_before(bytes, offset - 1) + if bytes[offset - 1] == 10 { 1nat } else { 0nat }
    }
}

/// The line holding the byte at `offset`: one more than the newlines before it, but never past
/// the last line.
pub open spec fn line_at(bytes: Seq<u8>, offset: int, line_count: nat) -> nat {
    let line = 1 + newlines_before(bytes, offset);
    if line <= line_count {
        line
    } else {
        line_count
    }
}

/// The block a `(kind, byte range)` pair becomes in a source with `line_count` lines.
///
/// `start` and `end` are clamped to the source, and `end` is raised to at least `start`. The first
/// line holds the byte at `start` and the last line the byte at `end - 1`; an empty range spans
/// only its first line.
pub open spec fn placed_block(
    bytes: Seq<u8>,
    line_count: nat,
    item: (BlockKind, Range<usize>),
) -> BlockView {
    let start: int = if item.1.start <= bytes.len() { item.1.start as int } else { bytes.len() as int };
    let clamped_end: int = if item.1.end <= bytes.len() { item.1.end as int } else { bytes.len() as int };
    let end: int = if clamped_end >= start { clamped_end } else { start };
    let first = line_at(bytes, start, line_count);
    let last = if end > start { line_at(bytes, end - 1, line_count) } else { first };
    BlockView { kind: item.0, first, last: if last >= first { last } else { first } }
}

/// Every supplied block, placed in a source with `line_count` lines, in the order supplied; none
/// when the source has no lines.
pub open spec fn placed_blocks(
    bytes: Seq<u8>,
    line_count: nat,
    items: Seq<(BlockKind, Range<usize>)>,
) -> Seq<BlockView> {
    if line_count == 0 {
        Seq::empty()
    } else {
        items.map_values(|item: (BlockKind, Range<usize>)| placed_block(bytes, line_count, item))
    }
}

/// The mathematical value of a [`Document`].
pub struct DocumentView {
    /// The lines, line `n` at index `n - 1`, without their terminators.
    pub lines: Seq<Seq<char>>,
    /// How many newline characters end the source consecutively.
    pub trailing_newline_count: nat,
    /// Whether the source had no characters.
    pub source_is_empty: bool,
    /// The blocks, in non-decreasing order of first line.
    pub blocks: Seq<BlockView>,
}

/// The document a source gives before any block is added.
pub open spec fn source_document(s: Seq<char>) -> DocumentView {
    DocumentView {
        lines: source_lines(s),
        trailing_newline_count: trailing_newlines(s),
        source_is_empty: s.len() == 0,
        blocks: Seq::empty(),
    }
}

/// What every document holds: blocks ordered by first line, each spanning lines that exist.
pub open spec fn document_wf(doc: DocumentView) -> bool {
    &&& key_sorted(doc.blocks)
    &&& forall|i: int|
        0 <= i < doc.blocks.len() ==> 1 <= #[trigger] doc.blocks[i].first <= doc.blocks[i].last
            <= doc.lines.len()
}

impl SpecKey for Block {
    open spec fn sort_key(&self) -> int {
        self@.first as int
    }
}

impl SpecKey for BlockView {
    open spec fn sort_key(&self) -> int {
        self.first as int
    }
}

impl SortKey for Block {
    fn key_le(&self, other: &Self) -> (res: bool) {
        self.lines().first() <= other.lines().first()
    }
}

/// A parsed Markdown document, as the rules see it: 1-indexed lines with their line terminators
/// stripped, the count of consecutive trailing newline characters at end-of-file, and the blocks
/// whose line extents the rules need.
///
/// Line `n` is the text after the `(n - 1)`th `\n` of the source. The empty text after a final
/// `\n` is not a line.
#[derive(Debug, PartialEq, Eq)]
pub struct Document {
    lines: Vec<String>,
    trailing_newline_count: usize,
    source_is_empty: bool,
    blocks: Vec<Block>,
}

impl View for Document {
    type V = DocumentView;

    closed spec fn view(&self) -> DocumentView {
        DocumentView {
            lines: line_texts(self.lines@),
            trailing_newline_count: self.trailing_newline_count as nat,
            source_is_empty: self.source_is_empty,
            blocks: block_views(self.blocks@),
        }
    }
}

/// Appends `n` carriage returns.
fn push_carriage_returns(text: &mut String, n: usize)
    ensures
        final(text)@ == old(text)@ + carriage_returns(n as nat),
{
    let mut k: usize = 0;
    assert(text@ =~= old(text)@ + carriage_returns(0));
    while k < n
        invariant
            k <= n,
            text@ == old(text)@ + carriage_returns(k as nat),
        decreases n - k,
    {
        push_char(text, '\r');
        k = k + 1;
        assert(text@ =~= old(text)@ + carriage_returns(k as nat));
    }
}

/// Splits the characters of a non-empty source into its lines and its trailing newline count.
/// Carriage returns are held back until a character other than `\r` or `\n` follows them, so
/// those that end a line are never added to it.
fn split_lines(chars: &Vec<char>) -> (res: (Vec<String>, usize))
    requires
        chars@.len() > 0,
    ensures
        line_texts(res.0@) == source_lines(chars@),
        res.1 == trailing_newlines(chars@),
{
    let ghost s = chars@;
    let mut lines: Vec<String> = Vec::new();
    let mut current = String::new();
    let mut pending: usize = 0;
    let mut run: usize = 0;
    let mut i: usize = 0;
    assert(s.take(0) =~= Seq::<char>::empty());
    assert(current@ + carriage_returns(0) =~= Seq::<char>::empty());
    while i < chars.len()
        invariant
            i <= s.len(),
            s == chars@,
            split_pieces(s.take(i as int)).len() >= 1,
            line_texts(lines@) == stripped_pieces(split_pieces(s.take(i as int)).drop_last()),
            current@ + carriage_returns(pending as nat) == split_pieces(s.take(i as int)).last(),
            current@.len() == 0 || current@.last() != '\r',
            pending <= i,
            run == trailing_newlines(s.take(i as int)),
            run <= i,
        decreases s.len() - i,
    {
        let c = chars[i];
        let ghost before = s.take(i as int);
        let ghost pieces = split_pieces(before);
        let ghost after = s.take(i + 1);
        assert(after.drop_last() =~= before);
        assert(after.last() == c);
        if c == '\n' {
            proof {
                lemma_strip_carriage_returns(current@, pending as nat);
            }
            let ghost old_lines = lines@;
            lines.push(current);
            current = String::new();
            pending = 0;
            run = run + 1;
            proof {
                lemma_pieces_nonempty(before);
                assert(split_pieces(after).drop_last() =~= pieces);
                assert(lines@ == old_lines.push(lines@.last()));
                assert(line_texts(old_lines).len() == old_lines.len());
                assert(stripped_pieces(pieces.drop_last()).len() == pieces.len() - 1);
                assert(old_lines.len() == pieces.len() - 1);
                assert forall|k: int| 0 <= k < lines@.len() implies #[trigger] lines@[k]@ == strip_cr(pieces[k]) by {
                    if k < old_lines.len() {
                        assert(line_texts(old_lines)[k] == strip_cr(pieces.drop_last()[k]));
                    }
                }
                assert(line_texts(lines@) =~= stripped_pieces(pieces));
                assert(current@ + carriage_returns(0) =~= split_pieces(after).last());
            }
        } else if c == '\r' {
            pending = pending + 1;
            run = 0;
            proof {
                assert(split_pieces(after).drop_last() =~= pieces.drop_last());
                assert(current@ + carriage_returns(pending as nat) =~= split_pieces(after).last());
            }
        } else {
            push_carriage_returns(&mut current, pending);
            push_char(&mut current, c);
            pending = 0;
            run = 0;
            proof {
                assert(split_pieces(after).drop_last() =~= pieces.drop_last());
                assert(current@ + carriage_returns(0) =~= split_pieces(after).last());
            }
        }
        i = i + 1;
    }
    assert(s.take(i as int) =~= s);
    let ghost pieces = split_pieces(s);
    if !current.as_str().is_empty() || pending > 0 {
        proof {
            if s.last() == '\n' {
                lemma_pieces_nonempty(s.drop_last());
                assert(pieces.last() =~= Seq::<char>::empty());
                assert((current@ + carriage_returns(pending as nat)).len() > 0);
            }
            lemma_strip_carriage_returns(current@, pending as nat);
        }
        let ghost old_lines = lines@;
        lines.push(current);
        proof {
            lemma_pieces_nonempty(s);
            assert(lines@ == old_lines.push(lines@.last()));
            assert(line_texts(old_lines).len() == old_lines.len());
            assert(stripped_pieces(pieces.drop_last()).len() == pieces.len() - 1);
            assert(old_lines.len() == pieces.len() - 1);
            assert forall|k: int| 0 <= k < lines@.len() implies #[trigger] lines@[k]@ == strip_cr(pieces[k]) by {
                if k < old_lines.len() {
                    assert(line_texts(old_lines)[k] == strip_cr(pieces.drop_last()[k]));
                }
            }
            assert(line_texts(lines@) =~= source_lines(s));
        }
    } else {
        proof {
            lemma_pieces_nonempty(s.drop_last());
            assert(current@ + carriage_returns(0) =~= current@);
            if s.last() != '\n' {
                assert(pieces.last() == split_pieces(s.drop_last()).last().push(s.last()));
            }
        }
    }
    (lines, run)
}

/// Counting newlines never goes down as the offset grows.
pub proof fn lemma_newlines_monotone(bytes: Seq<u8>, a: int, b: int)
    requires
        0 <= a <= b <= bytes.len(),
    ensures
        newlines_before(bytes, a) <= newlines_before(bytes, b),
    decreases b - a,
{
    if a < b {
        lemma_newlines_monotone(bytes, a, b - 1);
    }
}

/// Each `\n` byte at offset `at` makes the count one higher just after it.
proof fn lemma_newline_step(bytes: Seq<u8>, at: int)
    requires
        0 <= at < bytes.len(),
    ensures
        newlines_before(bytes, at + 1) == newlines_before(bytes, at) + if bytes[at] == 10 {
            1nat
        } else {
            0nat
        },
{
}

/// The offset of every `\n` byte of `bytes`, ascending.
fn newline_offsets(bytes: &[u8]) -> (res: Vec<usize>)
    ensures
        res@.len() == newlines_before(bytes@, bytes@.len() as int),
        forall|k: int|
            0 <= k < res@.len() ==> (#[trigger] res@[k]) < bytes@.len() && bytes@[res@[k] as int]
                == 10 && newlines_before(bytes@, res@[k] as int) == k,
        forall|a: int, b: int| 0 <= a < b < res@.len() ==> res@[a] < res@[b],
{
    let mut res: Vec<usize> = Vec::new();
    let mut i: usize = 0;
    while i < bytes.len()
        invariant
            i <= bytes@.len(),
            res@.len() == newlines_before(bytes@, i as int),
            forall|k: int|
                0 <= k < res@.len() ==> (#[trigger] res@[k]) < i && bytes@[res@[k] as int] == 10
                    && newlines_before(bytes@, res@[k] as int) == k,
            forall|a: int, b: int| 0 <= a < b < res@.len() ==> res@[a] < res@[b],
        decreases bytes@.len() - i,
    {
        proof {
            lemma_newline_step(bytes@, i as int);
        }
        if bytes[i] == 10 {
            res.push(i);
        }
        i = i + 1;
    }
    res
}

/// How many of the ascending newline `offsets` of `bytes` come before `offset`, by binary search:
/// the number of `\n` bytes before `offset`.
fn count_newlines_before(offsets: &Vec<usize>, Ghost(bytes): Ghost<Seq<u8>>, offset: usize) -> (res: usize)
    requires
        offset <= bytes.len(),
        offsets@.len() == newlines_before(bytes, bytes.len() as int),
        forall|k: int|
            0 <= k < offsets@.len() ==> (#[trigger] offsets@[k]) < bytes.len() && bytes[offsets@[k] as int]
                == 10 && newlines_before(bytes, offsets@[k] as int) == k,
        forall|a: int, b: int| 0 <= a < b < offsets@.len() ==> offsets@[a] < offsets@[b],
    ensures
        res == newlines_before(bytes, offset as int),
{
    let mut low: usize = 0;
    let mut high: usize = offsets.len();
    while low < high
        invariant
            low <= high <= offsets@.len(),
            forall|k: int| 0 <= k < low ==> (#[trigger] offsets@[k]) < offset,
            forall|k: int| high <= k < offsets@.len() ==> (#[trigger] offsets@[k]) >= offset,
            forall|a: int, b: int| 0 <= a < b < offsets@.len() ==> offsets@[a] < offsets@[b],
        decreases high - low,
    {
        let middle = low + (high - low) / 2;
        if offsets[middle] < offset {
            assert forall|k: int| 0 <= k < middle + 1 implies (#[trigger] offsets@[k]) < offset by {
                if k < middle {
                    assert(offsets@[k] < offsets@[middle as int]);
                }
            }
            low = middle + 1;
        } else {
            assert forall|k: int| middle <= k < offsets@.len() implies (#[trigger] offsets@[k]) >= offset by {
                if k > middle {
                    assert(offsets@[middle as int] < offsets@[k]);
                }
            }
            high = middle;
        }
    }
    proof {
        let p = low as int;
        if p > 0 {
            let before = offsets@[p - 1] as int;
            lemma_newline_step(bytes, before);
            lemma_newlines_monotone(bytes, before + 1, offset as int);
        }
        if p < offsets@.len() {
            lemma_newlines_monotone(bytes, offset as int, offsets@[p] as int);
        } else {
            lemma_newlines_monotone(bytes, offset as int, bytes.len() as int);
        }
    }
    low
}

/// The line holding the byte at `offset`, never past `line_count`.
fn line_of_offset(
    offsets: &Vec<usize>,
    Ghost(bytes): Ghost<Seq<u8>>,
    offset: usize,
    line_count: usize,
) -> (res: usize)
    requires
        offset <= bytes.len(),
        offsets@.len() == newlines_before(bytes, bytes.len() as int),
        forall|k: int|
            0 <= k < offsets@.len() ==> (#[trigger] offsets@[k]) < bytes.len() && bytes[offsets@[k] as int]
                == 10 && newlines_before(bytes, offsets@[k] as int) == k,
        forall|a: int, b: int| 0 <= a < b < offsets@.len() ==> offsets@[a] < offsets@[b],
    ensures
        res == line_at(bytes, offset as int, line_count as nat),
{
    let before = count_newlines_before(offsets, Ghost(bytes), offset);
    if before < line_count {
        before + 1
    } else {
        line_count
    }
}

/// Places every `(kind, byte range)` of `items` in a source of `line_count` lines, in the order
/// supplied.
fn place_blocks(source: &str, items: &Vec<(BlockKind, Range<usize>)>, line_count: usize) -> (res: Vec<Block>)
    requires
        line_count >= 1,
    ensures
        block_views(res@) == placed_blocks(encode_utf8(source@), line_count as nat, items@),
{
    let bytes = source.as_bytes();
    let ghost b = bytes@;
    let offsets = newline_offsets(bytes);
    let length = bytes.len();
    let mut res: Vec<Block> = Vec::new();
    let mut i: usize = 0;
    while i < items.len()
        invariant
            i <= items@.len(),
            b == bytes@,
            length == b.len(),
            line_count >= 1,
            offsets@.len() == newlines_before(b, b.len() as int),
            forall|k: int|
                0 <= k < offsets@.len() ==> (#[trigger] offsets@[k]) < b.len() && b[offsets@[k] as int]
                    == 10 && newlines_before(b, offsets@[k] as int) == k,
            forall|x: int, y: int| 0 <= x < y < offsets@.len() ==> offsets@[x] < offsets@[y],
            res@.len() == i,
            forall|k: int|
                0 <= k < i ==> (#[trigger] res@[k])@ == placed_block(b, line_count as nat, items@[k]),
        decreases items@.len() - i,
    {
        let kind = items[i].0;
        let start = if items[i].1.start <= length { items[i].1.start } else { length };
        let clamped_end = if items[i].1.end <= length { items[i].1.end } else { length };
        let end = if clamped_end >= start { clamped_end } else { start };
        let first = line_of_offset(&offsets, Ghost(b), start, line_count);
        let last = if end > start {
            line_of_offset(&offsets, Ghost(b), end - 1, line_count)
        } else {
            first
        };
        let block = Block::new(kind, LineSpan::new(first, last));
        res.push(block);
        i = i + 1;
    }
    assert(block_views(res@) =~= placed_blocks(encode_utf8(source@), line_count as nat, items@));
    res
}

/// Selecting blocks by first line commutes with taking their values.
pub proof fn lemma_block_views_with_key(blocks: Seq<Block>, k: int)
    ensures
        with_key(block_views(blocks), k) == block_views(with_key(blocks, k)),
    decreases blocks.len(),
{
    if blocks.len() > 0 {
        assert(block_views(blocks).drop_first() =~= block_views(blocks.drop_first()));
        lemma_block_views_with_key(blocks.drop_first(), k);
        if blocks[0]@.first == k {
            assert(block_views(seq![blocks[0]] + with_key(blocks.drop_first(), k)) =~= seq![blocks[0]@]
                + block_views(with_key(blocks.drop_first(), k)));
        }
    }
}

/// A stable sort of blocks is a stable sort of their values.
pub proof fn lemma_block_views_stable(sorted: Seq<Block>, s: Seq<Block>)
    requires
        is_stable_sort_of(sorted, s),
    ensures
        is_stable_sort_of(block_views(sorted), block_views(s)),
{
    assert forall|k: int| #[trigger] with_key(block_views(sorted), k) == with_key(block_views(s), k) by {
        lemma_block_views_with_key(sorted, k);
        lemma_block_views_with_key(s, k);
    }
}

impl Document {
    #[verifier::type_invariant]
    spec fn well_formed(self) -> bool {
        document_wf(self@)
    }

    /// Splits `source` into 1-indexed lines (the line terminator stripped from each), and
    /// records how many newline characters end the source consecutively: `0` means no trailing
    /// newline at all, `1` means exactly one, `2` or more means more than one.
    ///
    /// A `\r\n` line terminator has its `\r` stripped along with the `\n`, so line text never
    /// carries a trailing carriage return. The document has no blocks.
    pub fn from_source(source: &str) -> (res: Document)
        ensures
            res@ == source_document(source@),
            forall|i: int|
                0 <= i < res@.lines.len() ==> (#[trigger] res@.lines[i]).len() == 0
                    || res@.lines[i].last() != '\r',
            forall|i: int, j: int|
                0 <= i < res@.lines.len() && 0 <= j < res@.lines[i].len() ==> #[trigger] res@.lines[i][j]
                    != '\n',
    {
        proof {
            lemma_lines_end_without_carriage_return(source@);
            lemma_lines_hold_no_newline(source@);
        }
        let chars = chars_of(source);
        if chars.len() == 0 {
            let res = Document {
                lines: Vec::new(),
                trailing_newline_count: 0,
                source_is_empty: true,
                blocks: Vec::new(),
            };
            assert(res@.lines =~= source_document(source@).lines);
            assert(res@.blocks =~= source_document(source@).blocks);
            return res;
        }
        let (lines, trailing_newline_count) = split_lines(&chars);
        let res = Document { lines, trailing_newline_count, source_is_empty: false, blocks: Vec::new() };
        assert(res@.blocks =~= source_document(source@).blocks);
        res
    }

    /// Builds the document as [`from_source`](Self::from_source) does, and adds one [`Block`] for
    /// each `(kind, byte range)` in `blocks`, where the range is a byte range into `source`.
    ///
    /// Each range becomes the span of whole lines it touches, numbered as [`lines`](Self::lines)
    /// numbers them:
    ///
    /// - `start` and `end` are clamped to `source.len()`, and `end` is raised to at least `start`.
    /// - The first line holds the byte at `start`, and the last line holds the byte at `end - 1`.
    ///   An empty range spans only its first line.
    /// - Both lines are clamped to the last line, so a range that starts after the final newline
    ///   belongs to the last line. When the source has no lines, every block is dropped.
    ///
    /// [`blocks`](Self::blocks) keeps the blocks in order of first line; blocks with the same
    /// first line keep the order they were supplied in.
    ///
    /// Runs in `O(source + blocks × log(source))` time.
    pub fn from_source_and_blocks(source: &str, blocks: Vec<(BlockKind, Range<usize>)>) -> (res: Document)
        ensures
            res@.lines == source_lines(source@),
            res@.trailing_newline_count == trailing_newlines(source@),
            res@.source_is_empty == (source@.len() == 0),
            is_stable_sort_of(
                res@.blocks,
                placed_blocks(encode_utf8(source@), source_lines(source@).len(), blocks@),
            ),
            forall|i: int|
                0 <= i < res@.lines.len() ==> (#[trigger] res@.lines[i]).len() == 0
                    || res@.lines[i].last() != '\r',
            forall|i: int, j: int|
                0 <= i < res@.lines.len() && 0 <= j < res@.lines[i].len() ==> #[trigger] res@.lines[i][j]
                    != '\n',
    {
        proof {
            lemma_lines_end_without_carriage_return(source@);
            lemma_lines_hold_no_newline(source@);
        }
        let document = Document::from_source(source);
        let line_count = document.lines.len();
        if line_count == 0 || blocks.len() == 0 {
            proof {
                assert(placed_blocks(encode_utf8(source@), source_lines(source@).len(), blocks@)
                    =~= Seq::<BlockView>::empty());
            }
            return document;
        }
        let placed = place_blocks(source, &blocks, line_count);
        let sorted = sort_stable(placed);
        proof {
            lemma_block_views_stable(sorted@, placed@);
            let sorted_views = block_views(sorted@);
            let placed_views = block_views(placed@);
            let b = encode_utf8(source@);
            assert(placed_views == placed_blocks(b, line_count as nat, blocks@));
            assert forall|i: int| 0 <= i < sorted_views.len() implies 1 <= #[trigger] sorted_views[i].first
                <= sorted_views[i].last <= line_count by {
                let x = sorted_views[i];
                let k = x.first as int;
                lemma_with_key_contains(sorted_views, i);
                assert(with_key(sorted_views, k) == with_key(placed_views, k));
                lemma_with_key_from(placed_views, k, x);
                let j = choose|j: int| 0 <= j < placed_views.len() && placed_views[j] == x;
                assert(placed_views[j] == placed_block(b, line_count as nat, blocks@[j]));
            }
            assert(document_wf(DocumentView {
                lines: line_texts(document.lines@),
                trailing_newline_count: document.trailing_newline_count as nat,
                source_is_empty: document.source_is_empty,
                blocks: sorted_views,
            }));
        }
        let res = Document {
            lines: document.lines,
            trailing_newline_count: document.trailing_newline_count,
            source_is_empty: document.source_is_empty,
            blocks: sorted,
        };
        res
    }

    /// The document's lines, in order, 1-indexed by position (index `0` is line `1`).
    pub fn lines(&self) -> (res: &[String])
        ensures
            line_texts(res@) == self@.lines,
    {
        self.lines.as_slice()
    }

    /// How many newline characters end the source consecutively: `0` (no trailing newline), `1`
    /// (exactly one), or `2` or more (more than one).
    pub fn trailing_newline_count(&self) -> (res: usize)
        ensures
            res == self@.trailing_newline_count,
    {
        self.trailing_newline_count
    }

    /// Whether the source that built this document had zero bytes.
    pub fn source_is_empty(&self) -> (res: bool)
        ensures
            res == self@.source_is_empty,
    {
        self.source_is_empty
    }

    /// The document's blocks, in non-decreasing order of first line. Blocks may nest or overlap.
    pub fn blocks(&self) -> (res: &[Block])
        ensures
            block_views(res@) == self@.blocks,
            document_wf(self@),
    {
        proof {
            use_type_invariant(self);
        }
        self.blocks.as_slice()
    }
}

impl Clone for Document {
    /// A copy of the document, with the same lines, trailing newline count and blocks.
    fn clone(&self) -> (res: Document)
        ensures
            res@ == self@,
    {
        proof {
            use_type_invariant(self);
        }
        let mut lines: Vec<String> = Vec::new();
        let mut i: usize = 0;
        while i < self.lines.len()
            invariant
                i <= self.lines@.len(),
                lines@.len() == i,
                line_texts(lines@) == line_texts(self.lines@.take(i as int)),
            decreases self.lines@.len() - i,
        {
            let ghost previous = lines@;
            let line = self.lines[i].clone();
            lines.push(line);
            proof {
                assert(lines@[i as int] == self.lines@[i as int]);
                let now = line_texts(self.lines@.take(i + 1));
                assert forall|k: int| 0 <= k < i + 1 implies #[trigger] line_texts(lines@)[k] == now[k] by {
                    if k < i {
                        assert(line_texts(previous)[k] == line_texts(self.lines@.take(i as int))[k]);
                    }
                }
                assert(line_texts(lines@) =~= now);
            }
            i = i + 1;
        }
        let mut blocks: Vec<Block> = Vec::new();
        let mut j: usize = 0;
        while j < self.blocks.len()
            invariant
                j <= self.blocks@.len(),
                blocks@ == self.blocks@.take(j as int),
            decreases self.blocks@.len() - j,
        {
            blocks.push(self.blocks[j]);
            j = j + 1;
            assert(blocks@ =~= self.blocks@.take(j as int));
        }
        assert(self.lines@.take(i as int) =~= self.lines@);
        assert(self.blocks@.take(j as int) =~= self.blocks@);
        Document {
            lines,
            trailing_newline_count: self.trailing_newline_count,
            source_is_empty: self.source_is_empty,
            blocks,
        }
    }
}

} // verus!
