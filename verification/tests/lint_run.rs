use std::path::PathBuf;

use lint::{
    Document, LintAction, LintEvent, LintFault, LintOutcome, LintRun, ReadFault, ReportFault,
    Stage, WalkFault,
};

fn path(text: &str) -> PathBuf {
    PathBuf::from(text)
}

#[test]
fn a_run_starts_by_resolving_its_first_input() {
    let (run, action) = LintRun::start(2);
    assert!(matches!(action, LintAction::Resolve(0)));
    assert_eq!(run.stage(), Stage::Resolving);
    assert!(run.current_file().is_none());
}

#[test]
fn a_run_over_no_inputs_finishes_at_once() {
    let (mut run, action) = LintRun::start(0);
    assert!(matches!(action, LintAction::Finish));
    assert_eq!(run.stage(), Stage::Finishing);
    let done = run.step(LintEvent::Delivered(Ok(())));
    assert!(matches!(done, LintAction::Done(ref outcome) if *outcome == LintOutcome::default()));
    assert_eq!(run.stage(), Stage::Done);
}

#[test]
fn a_walk_fault_is_reported_and_the_run_goes_on_as_after_an_empty_input() {
    let (mut faulty, _) = LintRun::start(2);
    let action = faulty.step(LintEvent::Resolved(Err(WalkFault::NotFound {
        path: path("gone.md"),
    })));
    assert!(matches!(
        action,
        LintAction::ReportFault(LintFault::NotFound { ref path }) if *path == PathBuf::from("gone.md")
    ));
    assert_eq!(faulty.stage(), Stage::ReportingFault);
    let after_fault = faulty.step(LintEvent::FaultReported);

    let (mut empty, _) = LintRun::start(2);
    let after_empty = empty.step(LintEvent::Resolved(Ok(Vec::new())));

    assert!(matches!(after_fault, LintAction::Resolve(1)));
    assert!(matches!(after_empty, LintAction::Resolve(1)));
    assert_eq!(faulty.stage(), empty.stage());
}

#[test]
fn a_read_fault_is_reported_and_the_run_goes_on_as_after_a_clean_file() {
    let (mut run, _) = LintRun::start(1);
    let action = run.step(LintEvent::Resolved(Ok(vec![path("a.md"), path("b.md")])));
    assert!(matches!(action, LintAction::Read));
    assert_eq!(run.current_file(), Some(&path("a.md")));

    let action = run.step(LintEvent::Read(Err(ReadFault::InvalidUtf8 {
        path: path("a.md"),
    })));
    assert!(matches!(action, LintAction::ReportFault(LintFault::InvalidUtf8 { .. })));
    let action = run.step(LintEvent::FaultReported);
    assert!(matches!(action, LintAction::Read));
    assert_eq!(run.current_file(), Some(&path("b.md")));

    let action = run.step(LintEvent::Read(Ok(Document::from_source("clean\n"))));
    assert!(matches!(action, LintAction::Finish));
    let done = run.step(LintEvent::Delivered(Ok(())));
    let LintAction::Done(outcome) = done else {
        panic!("the run did not end: {done:?}");
    };
    assert_eq!(outcome.faults, 1);
    assert_eq!(outcome.files_with_findings, 0);
    assert_eq!(outcome.exit_code(), 2);
}

#[test]
fn a_file_with_findings_is_reported_in_output_order_and_awaits_delivery() {
    let (mut run, _) = LintRun::start(1);
    run.step(LintEvent::Resolved(Ok(vec![path("a.md")])));
    let action = run.step(LintEvent::Read(Ok(Document::from_source("\tx\ny  \n"))));
    let LintAction::ReportFindings(file) = action else {
        panic!("no findings reported: {action:?}");
    };
    assert_eq!(file.path, path("a.md"));
    let order: Vec<(usize, usize)> = file
        .findings
        .iter()
        .map(|finding| (finding.location().line(), finding.location().col()))
        .collect();
    assert_eq!(order, [(1, 1), (2, 2)]);
    assert_eq!(run.stage(), Stage::Reporting);
    assert!(run.accepts(&LintEvent::Delivered(Ok(()))));
    assert!(!run.accepts(&LintEvent::FaultReported));
    assert!(!run.accepts(&LintEvent::Resolved(Ok(Vec::new()))));
}

#[test]
fn an_output_failure_stops_the_run_at_once() {
    let (mut run, _) = LintRun::start(3);
    run.step(LintEvent::Resolved(Ok(vec![path("a.md")])));
    run.step(LintEvent::Read(Ok(Document::from_source("x  \n"))));
    let action = run.step(LintEvent::Delivered(Err(ReportFault::Unwritable {
        detail: "disk full".to_string(),
    })));
    assert!(matches!(
        action,
        LintAction::ReportFault(LintFault::OutputUnwritable { ref detail }) if detail == "disk full"
    ));
    assert_eq!(run.stage(), Stage::Stopping);
    let done = run.step(LintEvent::FaultReported);
    let LintAction::Done(outcome) = done else {
        panic!("the run did not end: {done:?}");
    };
    assert_eq!(
        outcome.stopped,
        Some(ReportFault::Unwritable {
            detail: "disk full".to_string()
        })
    );
    assert_eq!(outcome.files_with_findings, 1);
    assert_eq!(outcome.exit_code(), 2);

    let (mut closed, _) = LintRun::start(3);
    closed.step(LintEvent::Resolved(Ok(vec![path("a.md")])));
    closed.step(LintEvent::Read(Ok(Document::from_source("x  \n"))));
    let done = closed.step(LintEvent::Delivered(Err(ReportFault::Closed)));
    assert!(matches!(done, LintAction::Done(ref outcome) if outcome.stopped == Some(ReportFault::Closed)));
}

#[test]
fn a_run_that_is_over_accepts_nothing() {
    let (mut run, _) = LintRun::start(0);
    run.step(LintEvent::Delivered(Ok(())));
    assert_eq!(run.stage(), Stage::Done);
    assert!(!run.accepts(&LintEvent::Delivered(Ok(()))));
    assert!(!run.accepts(&LintEvent::FaultReported));
    assert!(!run.accepts(&LintEvent::Resolved(Ok(Vec::new()))));
    assert!(!run.accepts(&LintEvent::Read(Ok(Document::from_source("")))));
}
