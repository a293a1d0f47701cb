//! The rule implementations, and the check that runs every rule over a document.
use vstd::prelude::*;

use crate::document::Document;
use crate::finding::{Finding, FindingMessage, FindingView};
use crate::location::{Location, LocationView};
use crate::rule_id::RuleId;
use crate::finding::lemma_output_key_order;
use crate::rule_id::rule_rank;
use crate::sort::{
    is_stable_sort_of, key_sorted, lemma_stable_sort_keeps_elements, lemma_stable_sort_unique, sort_stable,
    with_key,
};

pub mod coverage;
pub mod line_text;
mod md001;
mod md009;
mod md010;
mod md012;
mod md013;
mod md018;
mod md022;
mod md025;
mod md047;

pub use md001::{md001_findings, previous_level, Md001};
pub use md025::{md025_findings, Md025};
pub use md022::{md022_findings, Md022};
pub use md009::{md009_findings, md009_line, Md009};
pub use md010::{md010_findings, md010_line, Md010};
pub use md012::{md012_findings, blank_run, Md012, MAXIMUM_BLANK_LINES};
pub use md018::{md018_findings, misses_space_after_hash, line_misses_space_after_hash, Md018};
pub use md013::{md013_findings, md013_line, Md013, LINE_LENGTH};
pub use md047::{md047_findings, Md047};

verus! {

/// A pure, deterministic style-checking policy over one parsed [`Document`].
///
/// A rule has no failure mode of its own: given a `Document`, it always returns the (possibly
/// empty) list of findings, and calling it twice with the same document gives the same result.
/// Each rule's `check` states its findings exactly, as a function of the document.
pub trait Rule {
    /// Checks `doc` and returns every finding this rule produces.
    fn check(&self, doc: &Document) -> Vec<Finding>;
}

/// The values of a sequence of findings.
pub open spec fn finding_views(findings: Seq<Finding>) -> Seq<FindingView> {
    findings.map_values(|finding: Finding| finding@)
}

/// The finding a rule reports at a line and column.
pub open spec fn found(rule: RuleId, line: nat, col: nat, message: FindingMessage) -> FindingView {
    FindingView { rule, location: LocationView { line, col }, message }
}

/// Builds the finding of `rule` at `line` and `col`, both at least 1.
pub(crate) fn finding_at(rule: RuleId, line: usize, col: usize, message: FindingMessage) -> (res: Finding)
    requires
        line >= 1,
        col >= 1,
    ensures
        res@ == found(rule, line as nat, col as nat, message),
{
    match Location::new(line, col) {
        Ok(location) => Finding::new(rule, location, message),
        Err(_) => {
            assert(false);
            Finding::new(rule, Location::new(1, 1).unwrap(), message)
        },
    }
}

/// Pushing a finding appends its value.
pub proof fn lemma_push_finding(findings: Seq<Finding>, finding: Finding)
    ensures
        finding_views(findings.push(finding)) == finding_views(findings).push(finding@),
{
    assert(finding_views(findings.push(finding)) =~= finding_views(findings).push(finding@));
}

/// A sequence that holds `x` still holds it with more appended after or before.
pub(crate) proof fn lemma_contains_in_sum(a: Seq<FindingView>, b: Seq<FindingView>, x: FindingView)
    requires
        a.contains(x) || b.contains(x),
    ensures
        (a + b).contains(x),
{
    if a.contains(x) {
        let k = choose|k: int| 0 <= k < a.len() && a[k] == x;
        assert((a + b)[k] == x);
    } else {
        let k = choose|k: int| 0 <= k < b.len() && b[k] == x;
        assert((a + b)[a.len() + k] == x);
    }
}

/// Every rule's findings for a document, rule after rule in ascending identifier order, each
/// rule's own findings in the order it reports them.
pub open spec fn document_findings(doc: crate::document::DocumentView) -> Seq<FindingView> {
    md001_findings(doc) + md009_findings(doc) + md010_findings(doc) + md012_findings(doc)
        + md013_findings(doc) + md018_findings(doc) + md022_findings(doc) + md025_findings(doc)
        + md047_findings(doc)
}

/// Appending findings appends their values.
proof fn lemma_append_findings(a: Seq<Finding>, b: Seq<Finding>)
    ensures
        finding_views(a + b) == finding_views(a) + finding_views(b),
{
    assert(finding_views(a + b) =~= finding_views(a) + finding_views(b));
}

/// Runs every rule over `doc`, in ascending rule-identifier order, and returns all their findings.
pub fn check_document(doc: &Document) -> (res: Vec<Finding>)
    ensures
        finding_views(res@) == document_findings(doc@),
{
    let mut all = Md001.check(doc);
    let mut more = Md009.check(doc);
    proof { lemma_append_findings(all@, more@); }
    all.append(&mut more);
    let mut more = Md010.check(doc);
    proof { lemma_append_findings(all@, more@); }
    all.append(&mut more);
    let mut more = Md012.check(doc);
    proof { lemma_append_findings(all@, more@); }
    all.append(&mut more);
    let mut more = Md013.check(doc);
    proof { lemma_append_findings(all@, more@); }
    all.append(&mut more);
    let mut more = Md018.check(doc);
    proof { lemma_append_findings(all@, more@); }
    all.append(&mut more);
    let mut more = Md022.check(doc);
    proof { lemma_append_findings(all@, more@); }
    all.append(&mut more);
    let mut more = Md025.check(doc);
    proof { lemma_append_findings(all@, more@); }
    all.append(&mut more);
    let mut more = Md047.check(doc);
    proof { lemma_append_findings(all@, more@); }
    all.append(&mut more);
    all
}

/// Selecting findings by output key commutes with taking their values.
proof fn lemma_finding_views_with_key(findings: Seq<Finding>, k: int)
    ensures
        with_key(finding_views(findings), k) == finding_views(with_key(findings, k)),
    decreases findings.len(),
{
    if findings.len() > 0 {
        assert(finding_views(findings).drop_first() =~= finding_views(findings.drop_first()));
        lemma_finding_views_with_key(findings.drop_first(), k);
        assert(finding_views(seq![findings[0]] + with_key(findings.drop_first(), k)) =~= seq![findings[0]@]
            + finding_views(with_key(findings.drop_first(), k)));
    }
}

/// Orders one file's findings by location, then by rule identifier for findings at the same
/// location, keeping the order they came in among findings of one rule at one location.
pub fn sort_file_findings(findings: &mut Vec<Finding>)
    ensures
        is_stable_sort_of(final(findings)@, old(findings)@),
        final(findings)@.to_multiset() == old(findings)@.to_multiset(),
{
    let mut taken: Vec<Finding> = Vec::new();
    std::mem::swap(&mut taken, findings);
    let sorted = sort_stable(taken);
    proof {
        lemma_stable_sort_keeps_elements(sorted@, old(findings)@);
    }
    *findings = sorted;
}

/// A document's findings in output order: every rule's findings stably sorted by line, then
/// column, then rule identifier. Exactly one sequence is such a sort.
pub open spec fn output_findings(doc: crate::document::DocumentView) -> Seq<FindingView> {
    choose|sorted: Seq<FindingView>| is_stable_sort_of(sorted, document_findings(doc))
}

/// Runs every rule over `doc` and returns the findings in output order: by line, then column,
/// then rule identifier, and in report order among findings of one rule at one location.
pub fn check_in_output_order(doc: &Document) -> (res: Vec<Finding>)
    ensures
        is_stable_sort_of(finding_views(res@), document_findings(doc@)),
        finding_views(res@) == output_findings(doc@),
        finding_views(res@).to_multiset() == document_findings(doc@).to_multiset(),
{
    let all = check_document(doc);
    let sorted = sort_stable(all);
    proof {
        assert forall|k: int| #[trigger] with_key(finding_views(sorted@), k) == with_key(
            finding_views(all@),
            k,
        ) by {
            lemma_finding_views_with_key(sorted@, k);
            lemma_finding_views_with_key(all@, k);
        }
        let witness = finding_views(sorted@);
        assert(is_stable_sort_of(witness, document_findings(doc@)));
        lemma_stable_sort_unique(witness, output_findings(doc@), document_findings(doc@));
        lemma_stable_sort_keeps_elements(witness, document_findings(doc@));
    }
    sorted
}

/// Findings in output order come by line, then by column, then by rule identifier: of two
/// findings, the earlier one is on an earlier line, or on the same line at an earlier column, or
/// at the same location with a rule that is not later.
pub proof fn lemma_output_order(findings: Seq<Finding>, i: int, j: int)
    requires
        key_sorted(finding_views(findings)),
        0 <= i <= j < findings.len(),
    ensures
        ({
            let a = findings[i]@.location;
            let b = findings[j]@.location;
            a.line < b.line || (a.line == b.line && (a.col < b.col || (a.col == b.col && rule_rank(
                findings[i]@.rule,
            ) <= rule_rank(findings[j]@.rule))))
        }),
{
    let views = finding_views(findings);
    assert(views[i] == findings[i]@);
    assert(views[j] == findings[j]@);
    findings[i].lemma_location_fits();
    findings[j].lemma_location_fits();
    lemma_output_key_order(findings[i]@, findings[j]@);
}

} // verus!
