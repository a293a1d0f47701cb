use vstd::prelude::*;

use crate::document::{Document, DocumentView, line_texts};
use crate::finding::{Finding, FindingMessage, FindingView};
use crate::rule_id::RuleId;
use crate::rules::{finding_at, finding_views, found, lemma_contains_in_sum, lemma_push_finding, Rule};
use crate::text::chars_of;

verus! {

/// MD010's findings among the first `count` characters of line `number`: one at the first tab of
/// each run of tabs, at that tab's column.
pub open spec fn md010_chars(number: nat, line: Seq<char>, count: int) -> Seq<FindingView>
    decreases count,
{
    if count <= 0 {
        Seq::empty()
    } else {
        let at = count - 1;
        let starts_run = line[at] == '\t' && (at == 0 || line[at - 1] != '\t');
        md010_chars(number, line, at) + if starts_run {
            seq![found(RuleId::Md010, number, count as nat, FindingMessage::HardTab)]
        } else {
            Seq::empty()
        }
    }
}

/// MD010's findings on line `number`.
pub open spec fn md010_line(number: nat, line: Seq<char>) -> Seq<FindingView> {
    md010_chars(number, line, line.len() as int)
}

/// MD010's findings for the first `count` lines, in line order.
pub open spec fn md010_upto(lines: Seq<Seq<char>>, count: int) -> Seq<FindingView>
    decreases count,
{
    if count <= 0 {
        Seq::empty()
    } else {
        md010_upto(lines, count - 1) + md010_line(count as nat, lines[count - 1])
    }
}

/// MD010's findings for a document: one per run of tabs, in line and column order.
pub open spec fn md010_findings(doc: DocumentView) -> Seq<FindingView> {
    md010_upto(doc.lines, doc.lines.len() as int)
}

/// Whether column `col` (1-based) of `line` starts a run of tabs.
pub open spec fn starts_tab_run(line: Seq<char>, col: int) -> bool {
    1 <= col <= line.len() && line[col - 1] == '\t' && (col == 1 || line[col - 2] != '\t')
}

proof fn lemma_md010_chars_reports(number: nat, line: Seq<char>, count: int, col: int)
    requires
        starts_tab_run(line, col),
        col <= count <= line.len(),
    ensures
        md010_chars(number, line, count).contains(found(RuleId::Md010, number, col as nat, FindingMessage::HardTab)),
    decreases count,
{
    let x = found(RuleId::Md010, number, col as nat, FindingMessage::HardTab);
    let at = count - 1;
    let starts_run = line[at] == '\t' && (at == 0 || line[at - 1] != '\t');
    let tail = if starts_run {
        seq![found(RuleId::Md010, number, count as nat, FindingMessage::HardTab)]
    } else {
        Seq::<FindingView>::empty()
    };
    if col == count {
        assert(tail[0] == x);
        lemma_contains_in_sum(md010_chars(number, line, at), tail, x);
    } else {
        lemma_md010_chars_reports(number, line, count - 1, col);
        lemma_contains_in_sum(md010_chars(number, line, at), tail, x);
    }
}

proof fn lemma_md010_upto_reports(lines: Seq<Seq<char>>, count: int, number: int, col: int)
    requires
        1 <= number <= count <= lines.len(),
        starts_tab_run(lines[number - 1], col),
    ensures
        md010_upto(lines, count).contains(found(RuleId::Md010, number as nat, col as nat, FindingMessage::HardTab)),
    decreases count,
{
    let x = found(RuleId::Md010, number as nat, col as nat, FindingMessage::HardTab);
    if number == count {
        lemma_md010_chars_reports(number as nat, lines[number - 1], lines[number - 1].len() as int, col);
    } else {
        lemma_md010_upto_reports(lines, count - 1, number, col);
    }
    lemma_contains_in_sum(md010_upto(lines, count - 1), md010_line(count as nat, lines[count - 1]), x);
}

/// Whether `finding` is MD010's report of a run of tabs in `lines`.
pub open spec fn reports_tab_run(lines: Seq<Seq<char>>, finding: FindingView) -> bool {
    &&& finding.rule == RuleId::Md010
    &&& finding.message == FindingMessage::HardTab
    &&& 1 <= finding.location.line <= lines.len()
    &&& starts_tab_run(lines[finding.location.line - 1], finding.location.col as int)
}

proof fn lemma_md010_chars_only_runs(number: nat, line: Seq<char>, count: int)
    requires
        count <= line.len(),
    ensures
        forall|k: int|
            0 <= k < md010_chars(number, line, count).len() ==> {
                let finding = #[trigger] md010_chars(number, line, count)[k];
                &&& finding.rule == RuleId::Md010
                &&& finding.message == FindingMessage::HardTab
                &&& finding.location.line == number
                &&& starts_tab_run(line, finding.location.col as int)
            },
    decreases count,
{
    if count > 0 {
        lemma_md010_chars_only_runs(number, line, count - 1);
    }
}

proof fn lemma_md010_upto_only_runs(lines: Seq<Seq<char>>, count: int)
    requires
        count <= lines.len(),
    ensures
        forall|k: int|
            0 <= k < md010_upto(lines, count).len() ==> reports_tab_run(lines, #[trigger] md010_upto(lines, count)[k]),
    decreases count,
{
    if count > 0 {
        lemma_md010_upto_only_runs(lines, count - 1);
        let line = lines[count - 1];
        lemma_md010_chars_only_runs(count as nat, line, line.len() as int);
        let before = md010_upto(lines, count - 1);
        let added = md010_line(count as nat, line);
        assert forall|k: int| 0 <= k < md010_upto(lines, count).len() implies reports_tab_run(
            lines,
            #[trigger] md010_upto(lines, count)[k],
        ) by {
            if k >= before.len() {
                assert(md010_upto(lines, count)[k] == added[k - before.len()]);
            } else {
                assert(md010_upto(lines, count)[k] == before[k]);
            }
        }
    }
}

/// MD010 reports nothing but runs of tabs: every finding is a hard tab at the column where a run
/// of tabs starts, on a line of the document.
pub proof fn lemma_md010_reports_only_runs(doc: DocumentView)
    ensures
        forall|k: int|
            0 <= k < md010_findings(doc).len() ==> reports_tab_run(doc.lines, #[trigger] md010_findings(doc)[k]),
{
    lemma_md010_upto_only_runs(doc.lines, doc.lines.len() as int);
}

/// MD010 reads the lines alone: two documents with the same lines have the same findings,
/// whatever their blocks, so tabs in code blocks are reported like any others.
pub proof fn lemma_md010_reads_lines_alone(first: DocumentView, second: DocumentView)
    requires
        first.lines == second.lines,
    ensures
        md010_findings(first) == md010_findings(second),
{
}

/// Every run of tabs is reported: a tab at column `col` of line `number` that no tab precedes
/// directly gives a finding at `number:col`.
pub proof fn lemma_md010_reports_every_run(doc: DocumentView, number: int, col: int)
    requires
        1 <= number <= doc.lines.len(),
        starts_tab_run(doc.lines[number - 1], col),
    ensures
        md010_findings(doc).contains(found(RuleId::Md010, number as nat, col as nat, FindingMessage::HardTab)),
{
    lemma_md010_upto_reports(doc.lines, doc.lines.len() as int, number, col);
}

/// MD010 (`no-hard-tabs`): a line contains a hard tab character.
///
/// Every line is checked, including lines in code blocks and code spans. Each run of consecutive
/// tabs is one finding, at the column of the run's first tab. Columns count characters, and a tab
/// counts as one character.
#[derive(Debug, Default, Clone, Copy)]
pub struct Md010;

impl Rule for Md010 {
    fn check(&self, doc: &Document) -> (res: Vec<Finding>)
        ensures
            finding_views(res@) == md010_findings(doc@),
    {
        let lines = doc.lines();
        let ghost texts = line_texts(lines@);
        let mut findings: Vec<Finding> = Vec::new();
        let mut index: usize = 0;
        while index < lines.len()
            invariant
                index <= lines@.len(),
                texts == line_texts(lines@),
                texts == doc@.lines,
                finding_views(findings@) == md010_upto(texts, index as int),
            decreases lines@.len() - index,
        {
            let line = chars_of(lines[index].as_str());
            assert(line@ == texts[index as int]);
            let ghost before = finding_views(findings@);
            let number = index + 1;
            let mut previous_is_tab = false;
            let mut at: usize = 0;
            while at < line.len()
                invariant
                    at <= line@.len(),
                    index < lines@.len(),
                    number == index + 1,
                    previous_is_tab == (at > 0 && line@[at - 1] == '\t'),
                    finding_views(findings@) == before + md010_chars((index + 1) as nat, line@, at as int),
                decreases line@.len() - at,
            {
                let is_tab = line[at] == '\t';
                if is_tab && !previous_is_tab {
                    let finding = finding_at(RuleId::Md010, number, at + 1, FindingMessage::HardTab);
                    proof {
                        lemma_push_finding(findings@, finding);
                    }
                    findings.push(finding);
                }
                previous_is_tab = is_tab;
                at = at + 1;
                assert(finding_views(findings@) =~= before + md010_chars((index + 1) as nat, line@, at as int));
            }
            index = index + 1;
            assert(finding_views(findings@) =~= md010_upto(texts, index as int));
        }
        findings
    }
}

} // verus!
