use vstd::prelude::*;

use crate::document::{Document, DocumentView, line_texts};
use crate::finding::{Finding, FindingMessage, FindingView};
use crate::rule_id::RuleId;
use crate::rules::{finding_at, finding_views, found, lemma_contains_in_sum, lemma_push_finding, Rule};
use crate::text::{chars_of, is_white_space, is_whitespace};

verus! {

/// The most characters a line may have.
pub const LINE_LENGTH: usize = 80;

/// Whether `line` has whitespace beyond the limit, so that it could be wrapped there.
pub open spec fn wrappable_beyond_limit(line: Seq<char>) -> bool {
    exists|i: int| LINE_LENGTH <= i < line.len() && is_white_space(#[trigger] line[i])
}

/// MD013's finding on line `number`: when it has more than `LINE_LENGTH` characters and
/// whitespace beyond the limit, at the first column past the limit.
pub open spec fn md013_line(number: nat, line: Seq<char>) -> Seq<FindingView> {
    if line.len() > LINE_LENGTH && wrappable_beyond_limit(line) {
        seq![found(RuleId::Md013, number, (LINE_LENGTH + 1) as nat, FindingMessage::LineTooLong {
            maximum: LINE_LENGTH,
            found: line.len() as usize,
        })]
    } else {
        Seq::empty()
    }
}

/// MD013's findings for the first `count` lines, in line order.
pub open spec fn md013_upto(lines: Seq<Seq<char>>, count: int) -> Seq<FindingView>
    decreases count,
{
    if count <= 0 {
        Seq::empty()
    } else {
        md013_upto(lines, count - 1) + md013_line(count as nat, lines[count - 1])
    }
}

/// MD013's findings for a document, in line order.
pub open spec fn md013_findings(doc: DocumentView) -> Seq<FindingView> {
    md013_upto(doc.lines, doc.lines.len() as int)
}

proof fn lemma_md013_upto_reports(lines: Seq<Seq<char>>, count: int, number: int)
    requires
        1 <= number <= count <= lines.len(),
        lines[number - 1].len() > LINE_LENGTH,
        wrappable_beyond_limit(lines[number - 1]),
    ensures
        md013_upto(lines, count).contains(
            found(
                RuleId::Md013,
                number as nat,
                (LINE_LENGTH + 1) as nat,
                FindingMessage::LineTooLong { maximum: LINE_LENGTH, found: lines[number - 1].len() as usize },
            ),
        ),
    decreases count,
{
    let x = found(
        RuleId::Md013,
        number as nat,
        (LINE_LENGTH + 1) as nat,
        FindingMessage::LineTooLong { maximum: LINE_LENGTH, found: lines[number - 1].len() as usize },
    );
    if number == count {
        assert(md013_line(count as nat, lines[count - 1])[0] == x);
    } else {
        lemma_md013_upto_reports(lines, count - 1, number);
    }
    lemma_contains_in_sum(md013_upto(lines, count - 1), md013_line(count as nat, lines[count - 1]), x);
}

/// Whether `finding` is MD013's report of a line of `lines`: more than 80 characters with
/// whitespace past the limit, reported at column 81 with the line's length.
pub open spec fn reports_long_line(lines: Seq<Seq<char>>, finding: FindingView) -> bool {
    &&& 1 <= finding.location.line <= lines.len()
    &&& {
        let line = lines[finding.location.line - 1];
        &&& line.len() > LINE_LENGTH
        &&& wrappable_beyond_limit(line)
        &&& finding == found(
            RuleId::Md013,
            finding.location.line,
            (LINE_LENGTH + 1) as nat,
            FindingMessage::LineTooLong { maximum: LINE_LENGTH, found: line.len() as usize },
        )
    }
}

proof fn lemma_md013_upto_only_long_lines(lines: Seq<Seq<char>>, count: int)
    requires
        count <= lines.len(),
    ensures
        forall|k: int|
            0 <= k < md013_upto(lines, count).len() ==> reports_long_line(lines, #[trigger] md013_upto(lines, count)[k]),
    decreases count,
{
    if count > 0 {
        lemma_md013_upto_only_long_lines(lines, count - 1);
        let before = md013_upto(lines, count - 1);
        let added = md013_line(count as nat, lines[count - 1]);
        assert forall|k: int| 0 <= k < md013_upto(lines, count).len() implies reports_long_line(
            lines,
            #[trigger] md013_upto(lines, count)[k],
        ) by {
            if k >= before.len() {
                assert(md013_upto(lines, count)[k] == added[k - before.len()]);
            } else {
                assert(md013_upto(lines, count)[k] == before[k]);
            }
        }
    }
}

/// MD013 reports nothing but long lines that could be wrapped: every finding is at column 81 of
/// a line of more than 80 characters with whitespace past the limit, and gives that line's length.
pub proof fn lemma_md013_reports_only_long_lines(doc: DocumentView)
    ensures
        forall|k: int|
            0 <= k < md013_findings(doc).len() ==> reports_long_line(doc.lines, #[trigger] md013_findings(doc)[k]),
{
    lemma_md013_upto_only_long_lines(doc.lines, doc.lines.len() as int);
}

/// MD013 reads the lines alone: two documents with the same lines have the same findings,
/// whatever their blocks, so headings, code blocks and tables share the limit.
pub proof fn lemma_md013_reads_lines_alone(first: DocumentView, second: DocumentView)
    requires
        first.lines == second.lines,
    ensures
        md013_findings(first) == md013_findings(second),
{
}

/// Every line of more than 80 characters with whitespace at character 81 or later is reported at
/// column 81, with its length.
pub proof fn lemma_md013_reports_every_wrappable_line(doc: DocumentView, number: int, space: int)
    requires
        1 <= number <= doc.lines.len(),
        doc.lines[number - 1].len() > LINE_LENGTH,
        LINE_LENGTH <= space < doc.lines[number - 1].len(),
        is_white_space(doc.lines[number - 1][space]),
    ensures
        md013_findings(doc).contains(
            found(
                RuleId::Md013,
                number as nat,
                (LINE_LENGTH + 1) as nat,
                FindingMessage::LineTooLong {
                    maximum: LINE_LENGTH,
                    found: doc.lines[number - 1].len() as usize,
                },
            ),
        ),
{
    assert(wrappable_beyond_limit(doc.lines[number - 1]));
    lemma_md013_upto_reports(doc.lines, doc.lines.len() as int, number);
}

/// MD013 (`line-length`): a line is longer than 80 characters and could be wrapped.
///
/// A long line is reported at column 81 only when it has whitespace at column 81 or later. A line
/// whose overflow holds no whitespace, such as a long URL, is not reported. Headings, code
/// blocks, and tables share the same limit. Lengths count characters, and a tab counts as one.
#[derive(Debug, Default, Clone, Copy)]
pub struct Md013;

/// Whether `chars` has whitespace at an index of `LINE_LENGTH` or more.
fn has_whitespace_beyond_limit(chars: &Vec<char>) -> (res: bool)
    ensures
        res == wrappable_beyond_limit(chars@),
{
    let mut at: usize = LINE_LENGTH;
    while at < chars.len()
        invariant
            LINE_LENGTH <= at,
            forall|i: int| LINE_LENGTH <= i < at && i < chars@.len() ==> !is_white_space(#[trigger] chars@[i]),
        decreases chars@.len() - at,
    {
        if is_whitespace(chars[at]) {
            return true;
        }
        at = at + 1;
    }
    false
}

impl Rule for Md013 {
    fn check(&self, doc: &Document) -> (res: Vec<Finding>)
        ensures
            finding_views(res@) == md013_findings(doc@),
    {
        let lines = doc.lines();
        let ghost texts = line_texts(lines@);
        let mut findings: Vec<Finding> = Vec::new();
        let mut index: usize = 0;
        while index < lines.len()
            invariant
                index <= lines@.len(),
                texts == line_texts(lines@),
                texts == doc@.lines,
                finding_views(findings@) == md013_upto(texts, index as int),
            decreases lines@.len() - index,
        {
            let line = chars_of(lines[index].as_str());
            assert(line@ == texts[index as int]);
            if line.len() > LINE_LENGTH && has_whitespace_beyond_limit(&line) {
                let finding = finding_at(
                    RuleId::Md013,
                    index + 1,
                    LINE_LENGTH + 1,
                    FindingMessage::LineTooLong { maximum: LINE_LENGTH, found: line.len() },
                );
                proof {
                    lemma_push_finding(findings@, finding);
                }
                findings.push(finding);
            }
            index = index + 1;
            assert(finding_views(findings@) =~= md013_upto(texts, index as int));
        }
        findings
    }
}

} // verus!
