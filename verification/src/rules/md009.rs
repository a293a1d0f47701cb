use vstd::prelude::*;

use crate::document::{Document, DocumentView, line_texts};
use crate::finding::{Finding, FindingMessage, FindingView};
use crate::rule_id::RuleId;
use crate::rules::{finding_at, finding_views, found, lemma_push_finding, Rule};
use crate::text::chars_of;

verus! {

/// `s` without its trailing spaces and tabs.
pub open spec fn trim_spaces_tabs_end(s: Seq<char>) -> Seq<char>
    decreases s.len(),
{
    if s.len() > 0 && (s.last() == ' ' || s.last() == '\t') {
        trim_spaces_tabs_end(s.drop_last())
    } else {
        s
    }
}

/// MD009's finding for line `number`, if it ends with spaces or tabs: at the column of the first
/// of them.
pub open spec fn md009_line(number: nat, line: Seq<char>) -> Seq<FindingView> {
    let kept = trim_spaces_tabs_end(line);
    if kept.len() < line.len() {
        seq![found(RuleId::Md009, number, kept.len() + 1, FindingMessage::TrailingWhitespace)]
    } else {
        Seq::empty()
    }
}

/// MD009's findings for the first `count` lines, in line order.
pub open spec fn md009_upto(lines: Seq<Seq<char>>, count: int) -> Seq<FindingView>
    decreases count,
{
    if count <= 0 {
        Seq::empty()
    } else {
        md009_upto(lines, count - 1) + md009_line(count as nat, lines[count - 1])
    }
}

/// MD009's findings for a document: one per line that ends with spaces or tabs, in line order.
pub open spec fn md009_findings(doc: DocumentView) -> Seq<FindingView> {
    md009_upto(doc.lines, doc.lines.len() as int)
}

/// MD009 (`no-trailing-spaces`): a line ends with one or more trailing space or tab characters.
#[derive(Debug, Default, Clone, Copy)]
pub struct Md009;

/// How many characters of `chars` remain once trailing spaces and tabs are removed.
fn kept_len(chars: &Vec<char>) -> (res: usize)
    ensures
        trim_spaces_tabs_end(chars@) == chars@.take(res as int),
        res <= chars@.len(),
{
    let mut end = chars.len();
    assert(chars@.take(end as int) =~= chars@);
    while end > 0 && (chars[end - 1] == ' ' || chars[end - 1] == '\t')
        invariant
            end <= chars@.len(),
            trim_spaces_tabs_end(chars@) == trim_spaces_tabs_end(chars@.take(end as int)),
        decreases end,
    {
        assert(chars@.take(end as int).drop_last() =~= chars@.take(end - 1));
        end = end - 1;
    }
    end
}

impl Rule for Md009 {
    fn check(&self, doc: &Document) -> (res: Vec<Finding>)
        ensures
            finding_views(res@) == md009_findings(doc@),
    {
        let lines = doc.lines();
        let ghost texts = line_texts(lines@);
        let mut findings: Vec<Finding> = Vec::new();
        let mut index: usize = 0;
        while index < lines.len()
            invariant
                index <= lines@.len(),
                texts == line_texts(lines@),
                texts == doc@.lines,
                finding_views(findings@) == md009_upto(texts, index as int),
            decreases lines@.len() - index,
        {
            let line = chars_of(lines[index].as_str());
            assert(line@ == texts[index as int]);
            let kept = kept_len(&line);
            if kept < line.len() {
                let finding = finding_at(RuleId::Md009, index + 1, kept + 1, FindingMessage::TrailingWhitespace);
                proof {
                    lemma_push_finding(findings@, finding);
                }
                findings.push(finding);
            }
            index = index + 1;
            assert(finding_views(findings@) =~= md009_upto(texts, index as int));
        }
        findings
    }
}

} // verus!
