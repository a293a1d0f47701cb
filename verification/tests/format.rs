use std::path::PathBuf;

use lint::{
    decide_exit_code, format_finding, format_finding_with_path, Finding, FindingMessage,
    LintOutcome, Location, ReportFault, RuleId,
};

#[test]
fn format_finding_matches_the_fixed_shape() {
    let finding = Finding::new(
        RuleId::Md009,
        Location::new(3, 5).unwrap(),
        FindingMessage::TrailingWhitespace,
    );
    let line = format_finding(&PathBuf::from("doc.md"), &finding);
    assert_eq!(line, "doc.md:3:5 MD009 trailing whitespace");
}

#[test]
fn no_fault_no_finding_exits_zero() {
    assert_eq!(decide_exit_code(false, false), 0);
}

#[test]
fn finding_without_fault_exits_one() {
    assert_eq!(decide_exit_code(false, true), 1);
}

#[test]
fn fault_without_finding_exits_two() {
    assert_eq!(decide_exit_code(true, false), 2);
}

#[test]
fn fault_takes_precedence_over_a_finding_present_in_the_same_run() {
    assert_eq!(decide_exit_code(true, true), 2);
}

#[test]
fn a_finding_line_starts_with_the_given_path_text() {
    let finding = Finding::new(
        RuleId::Md012,
        Location::new(10, 1).unwrap(),
        FindingMessage::MultipleBlankLines {
            maximum: 1,
            found: 2,
        },
    );
    assert_eq!(
        format_finding_with_path("a b/c.md", &finding),
        "a b/c.md:10:1 MD012 multiple consecutive blank lines (expected at most 1, found 2)"
    );
}

#[test]
fn an_outcome_exits_by_fault_then_stop_then_findings() {
    let outcome = |files_with_findings, faults, stopped| LintOutcome {
        files_with_findings,
        faults,
        stopped,
    };
    assert_eq!(outcome(0, 0, None).exit_code(), 0);
    assert_eq!(outcome(3, 0, None).exit_code(), 1);
    assert_eq!(outcome(3, 1, None).exit_code(), 2);
    assert_eq!(outcome(0, 0, Some(ReportFault::Closed)).exit_code(), 2);
    assert_eq!(
        outcome(
            5,
            0,
            Some(ReportFault::Unwritable {
                detail: "x".to_string()
            })
        )
        .exit_code(),
        2
    );
    assert_eq!(LintOutcome::default(), outcome(0, 0, None));
}
