use vstd::prelude::*;

use crate::document::{block_views, document_wf, line_texts, Document, DocumentView};
use crate::finding::{Finding, FindingMessage, FindingView};
use crate::rule_id::RuleId;
use crate::rules::coverage::{
    advance, code_or_html_blocks, cover_choice, covered, lemma_reach_covers, Cover,
};
use crate::rules::{finding_at, finding_views, found, lemma_push_finding, Rule};
use crate::text::{chars_of, trim_end, trimmed_end_len};

verus! {

/// How many `#` characters open `s`.
pub open spec fn leading_hashes(s: Seq<char>) -> nat
    decreases s.len(),
{
    if s.len() > 0 && s[0] == '#' {
        1 + leading_hashes(s.drop_first())
    } else {
        0
    }
}

/// Whether `s` opens with the keycap emoji `#` U+FE0F U+20E3, which is not a heading marker.
pub open spec fn opens_with_keycap(s: Seq<char>) -> bool {
    s.len() >= 3 && s[0] == '#' && s[1] == '\u{FE0F}' && s[2] == '\u{20E3}'
}

/// Whether `line` opens with `#` characters that no space follows: it opens with `#` at column 1,
/// the first character after the `#` run exists and is neither a space nor a tab, its last
/// non-blank character is not `#`, and it does not open with the keycap emoji.
pub open spec fn misses_space_after_hash(line: Seq<char>) -> bool {
    let hashes = leading_hashes(line);
    let kept = trim_end(line);
    &&& hashes > 0
    &&& hashes < line.len()
    &&& line[hashes as int] != ' '
    &&& line[hashes as int] != '\t'
    &&& !(kept.len() > 0 && kept.last() == '#')
    &&& !opens_with_keycap(line)
}

/// MD018's findings among the first `count` lines: each line outside code and HTML blocks that
/// misses the space after its `#` characters, at column 1.
pub open spec fn md018_upto(doc: DocumentView, count: int) -> Seq<FindingView>
    decreases count,
{
    if count <= 0 {
        Seq::empty()
    } else {
        md018_upto(doc, count - 1) + if !covered(doc.blocks, count, code_or_html_blocks())
            && misses_space_after_hash(doc.lines[count - 1]) {
            seq![found(RuleId::Md018, count as nat, 1, FindingMessage::MissingSpaceAfterHash)]
        } else {
            Seq::empty()
        }
    }
}

/// MD018's findings for a document, in line order.
pub open spec fn md018_findings(doc: DocumentView) -> Seq<FindingView> {
    md018_upto(doc, doc.lines.len() as int)
}

/// MD018 (`no-missing-space-atx`): a line opens with `#` characters that no space follows, so it
/// was probably meant as a heading but does not render as one.
///
/// This reads lines rather than parsed structure, so a run of seven or more `#` characters and a
/// `#` word that continues a paragraph are both reported even though neither is a heading. Lines
/// inside fenced code blocks, indented code blocks, and HTML blocks are never reported.
#[derive(Debug, Default, Clone, Copy)]
pub struct Md018;

/// Whether `line` opens with `#` characters that no space follows.
pub fn line_misses_space_after_hash(line: &str) -> (res: bool)
    ensures
        res == misses_space_after_hash(line@),
{
    let chars = chars_of(line);
    let mut hashes: usize = 0;
    assert(chars@.skip(0) =~= chars@);
    while hashes < chars.len() && chars[hashes] == '#'
        invariant
            hashes <= chars@.len(),
            leading_hashes(chars@) == hashes + leading_hashes(chars@.skip(hashes as int)),
        decreases chars@.len() - hashes,
    {
        assert(chars@.skip(hashes as int).drop_first() =~= chars@.skip(hashes + 1));
        hashes = hashes + 1;
    }
    proof {
        assert(chars@.skip(0) =~= chars@);
        if hashes < chars@.len() {
            assert(chars@.skip(hashes as int)[0] == chars@[hashes as int]);
        }
    }
    if hashes == 0 || hashes == chars.len() {
        return false;
    }
    if chars[hashes] == ' ' || chars[hashes] == '\t' {
        return false;
    }
    let kept = trimmed_end_len(&chars, 0);
    proof {
        assert(chars@.subrange(0, chars@.len() as int) =~= chars@);
    }
    if kept > 0 && chars[kept - 1] == '#' {
        return false;
    }
    !(chars.len() >= 3 && chars[0] == '#' && chars[1] == '\u{FE0F}' && chars[2] == '\u{20E3}')
}

impl Rule for Md018 {
    fn check(&self, doc: &Document) -> (res: Vec<Finding>)
        ensures
            finding_views(res@) == md018_findings(doc@),
    {
        let lines = doc.lines();
        let blocks = doc.blocks();
        let ghost texts = line_texts(lines@);
        let ghost views = block_views(blocks@);
        let cover = Cover::CodeOrHtml;
        let mut findings: Vec<Finding> = Vec::new();
        let mut pending: usize = 0;
        let mut excluded_through: usize = 0;
        let mut index: usize = 0;
        while index < lines.len()
            invariant
                index <= lines@.len(),
                texts == line_texts(lines@),
                texts == doc@.lines,
                views == block_views(blocks@),
                views == doc@.blocks,
                document_wf(doc@),
                cover == Cover::CodeOrHtml,
                pending <= blocks@.len(),
                forall|i: int| 0 <= i < pending ==> (#[trigger] views[i]).first <= index,
                forall|i: int| pending <= i < blocks@.len() ==> (#[trigger] views[i]).first > index,
                excluded_through == crate::rules::coverage::reach(views, pending as int, cover_choice(cover)),
                finding_views(findings@) == md018_upto(doc@, index as int),
            decreases lines@.len() - index,
        {
            let number = index + 1;
            advance(blocks, &cover, &mut pending, &mut excluded_through, number);
            proof {
                lemma_reach_covers(views, pending as int, number as int, code_or_html_blocks());
            }
            assert(lines@[index as int]@ == texts[index as int]);
            if number > excluded_through && line_misses_space_after_hash(lines[index].as_str()) {
                let finding = finding_at(RuleId::Md018, number, 1, FindingMessage::MissingSpaceAfterHash);
                proof {
                    lemma_push_finding(findings@, finding);
                }
                findings.push(finding);
            }
            index = number;
            assert(finding_views(findings@) =~= md018_upto(doc@, index as int));
        }
        findings
    }
}

} // verus!
