//! The decisions of one run over its inputs, as a state machine: the caller performs each action
//! (resolving an input, reading and parsing a file, reporting, finishing) and hands back what
//! came of it, and the run decides what to do next.
use std::path::PathBuf;

use vstd::prelude::*;

use crate::application::fault::{
    read_fault_as_lint_fault, walk_fault_as_lint_fault, LintFault, ReadFault, ReportFault, WalkFault,
};
use crate::application::format::{decide_exit_code, exit_code_for};
use crate::application::ports::{MarkdownParser, Reporter, SourceReader, Walker};
use crate::document::{Document, DocumentView};
use crate::finding::{Finding, FindingView};
use crate::rules::{check_in_output_order, finding_views, output_findings};

verus! {

/// The findings of one file, with its path stored once.
#[derive(Debug, Clone, PartialEq, Eq)]
pub struct FileFindings {
    /// The file the findings came from.
    pub path: PathBuf,
    /// The file's findings, sorted by location and then by rule identifier.
    pub findings: Vec<Finding>,
}

/// What a run reported, as counts. The findings and faults themselves went to the caller as they
/// were produced.
#[derive(Debug, Clone, PartialEq, Eq)]
pub struct LintOutcome {
    /// How many files had findings to report, including one whose delivery failed.
    pub files_with_findings: usize,
    /// How many walk and read faults were reported.
    pub faults: usize,
    /// The output failure that stopped the run before every input was processed, if any.
    pub stopped: Option<ReportFault>,
}

impl Default for LintOutcome {
    fn default() -> (res: LintOutcome)
        ensures
            res == (LintOutcome { files_with_findings: 0, faults: 0, stopped: None }),
    {
        LintOutcome { files_with_findings: 0, faults: 0, stopped: None }
    }
}

/// The exit status an outcome stands for: `2` when any fault occurred or the output failed,
/// otherwise `1` when any file had findings, otherwise `0`.
pub open spec fn outcome_exit_code(outcome: LintOutcome) -> u8 {
    exit_code_for(outcome.faults > 0 || outcome.stopped is Some, outcome.files_with_findings > 0)
}

fn copy_report_fault(fault: &ReportFault) -> (res: ReportFault)
    ensures
        res == *fault,
{
    match fault {
        ReportFault::Closed => ReportFault::Closed,
        ReportFault::Unwritable { detail } => ReportFault::Unwritable { detail: detail.clone() },
    }
}

impl LintOutcome {
    /// The process exit status for this outcome: `2` when any fault occurred or the output
    /// failed, otherwise `1` when any file had findings, otherwise `0`.
    pub fn exit_code(&self) -> (res: u8)
        ensures
            res == outcome_exit_code(*self),
    {
        decide_exit_code(self.faults > 0 || self.stopped.is_some(), self.files_with_findings > 0)
    }

    /// A copy of the outcome.
    pub fn copy(&self) -> (res: LintOutcome)
        ensures
            res == *self,
    {
        LintOutcome {
            files_with_findings: self.files_with_findings,
            faults: self.faults,
            stopped: match &self.stopped {
                None => None,
                Some(fault) => Some(copy_report_fault(fault)),
            },
        }
    }
}

/// Where a run is: which answer it waits for.
#[derive(Debug, Clone, Copy, PartialEq, Eq, Structural)]
pub enum Stage {
    /// Waiting for an input to be resolved.
    Resolving,
    /// Waiting for the current file to be read and parsed.
    Reading,
    /// Waiting for a file's findings to be delivered.
    Reporting,
    /// Waiting for a walk or read fault to be reported.
    ReportingFault,
    /// Waiting for the output to be completed.
    Finishing,
    /// Waiting for an output failure to be reported, before stopping.
    Stopping,
    /// Over: nothing more is awaited.
    Done,
}

/// What the caller does next.
#[derive(Debug)]
pub enum LintAction {
    /// Resolve the input at this index into the files to check, and answer
    /// [`LintEvent::Resolved`].
    Resolve(usize),
    /// Read and parse [`LintRun::current_file`], and answer [`LintEvent::Read`].
    Read,
    /// Deliver one file's findings, and answer [`LintEvent::Delivered`].
    ReportFindings(FileFindings),
    /// Report one fault, and answer [`LintEvent::FaultReported`].
    ReportFault(LintFault),
    /// Complete the output after the last input, and answer [`LintEvent::Delivered`].
    Finish,
    /// The run is over, with this outcome.
    Done(LintOutcome),
}

/// What came of an action.
pub enum LintEvent {
    /// The files an input resolved to, in order, or the fault that resolving it met.
    Resolved(Result<Vec<PathBuf>, WalkFault>),
    /// The current file's document, or the fault that reading it met.
    Read(Result<Document, ReadFault>),
    /// Whether findings or the end of the output were delivered.
    Delivered(Result<(), ReportFault>),
    /// A fault was reported. Delivery is best effort, so this carries no result.
    FaultReported,
}

/// The mathematical value of a [`LintAction`].
pub enum ActionView {
    Resolve(nat),
    Read,
    ReportFindings(PathBuf, Seq<FindingView>),
    ReportFault(LintFault),
    Finish,
    Done(LintOutcome),
}

/// The mathematical value of a [`LintEvent`].
pub enum EventView {
    Resolved(Result<Seq<PathBuf>, WalkFault>),
    Read(Result<DocumentView, ReadFault>),
    Delivered(Result<(), ReportFault>),
    FaultReported,
}

/// The value of an action.
pub open spec fn action_view(action: LintAction) -> ActionView {
    match action {
        LintAction::Resolve(input) => ActionView::Resolve(input as nat),
        LintAction::Read => ActionView::Read,
        LintAction::ReportFindings(file) => ActionView::ReportFindings(file.path, finding_views(file.findings@)),
        LintAction::ReportFault(fault) => ActionView::ReportFault(fault),
        LintAction::Finish => ActionView::Finish,
        LintAction::Done(outcome) => ActionView::Done(outcome),
    }
}

/// The value of an event.
pub open spec fn event_view(event: LintEvent) -> EventView {
    match event {
        LintEvent::Resolved(Ok(files)) => EventView::Resolved(Ok(files@)),
        LintEvent::Resolved(Err(fault)) => EventView::Resolved(Err(fault)),
        LintEvent::Read(Ok(doc)) => EventView::Read(Ok(doc@)),
        LintEvent::Read(Err(fault)) => EventView::Read(Err(fault)),
        LintEvent::Delivered(result) => EventView::Delivered(result),
        LintEvent::FaultReported => EventView::FaultReported,
    }
}

/// The mathematical value of a [`LintRun`].
pub struct LintRunView {
    /// How many inputs the run covers.
    pub inputs: nat,
    /// The index of the next input to resolve.
    pub next_input: nat,
    /// The files of the current input still to check, in order.
    pub files: Seq<PathBuf>,
    /// The file being read, exactly while the run waits for it to be read.
    pub current: Option<PathBuf>,
    /// The counts so far.
    pub outcome: LintOutcome,
    /// Which answer the run waits for.
    pub stage: Stage,
}

/// One more, unless that would not fit in a `usize`.
pub open spec fn bump(n: usize) -> usize {
    if n < usize::MAX { (n + 1) as usize } else { n }
}

/// Moves on: to the next file of the current input, else to the next input, else to finishing.
pub open spec fn advance(run: LintRunView) -> (LintRunView, ActionView) {
    if run.files.len() > 0 {
        (
            LintRunView { files: run.files.drop_first(), current: Some(run.files[0]), stage: Stage::Reading, ..run },
            ActionView::Read,
        )
    } else if run.next_input < run.inputs {
        (
            LintRunView { next_input: run.next_input + 1, stage: Stage::Resolving, ..run },
            ActionView::Resolve(run.next_input),
        )
    } else {
        (LintRunView { stage: Stage::Finishing, ..run }, ActionView::Finish)
    }
}

/// Stops a run the output could not keep up with: records why, and reports an unwritable output
/// once before ending. A closed output is not reported, since its reader has already gone.
pub open spec fn stop(run: LintRunView, failure: ReportFault) -> (LintRunView, ActionView) {
    let outcome = LintOutcome { stopped: Some(failure), ..run.outcome };
    match failure {
        ReportFault::Unwritable { detail } => (
            LintRunView { outcome, stage: Stage::Stopping, ..run },
            ActionView::ReportFault(LintFault::OutputUnwritable { detail }),
        ),
        ReportFault::Closed => (LintRunView { outcome, stage: Stage::Done, ..run }, ActionView::Done(outcome)),
    }
}

/// Whether a run at `stage` waits for `event`.
pub open spec fn accepts(stage: Stage, event: EventView) -> bool {
    match event {
        EventView::Resolved(_) => stage == Stage::Resolving,
        EventView::Read(_) => stage == Stage::Reading,
        EventView::Delivered(_) => stage == Stage::Reporting || stage == Stage::Finishing,
        EventView::FaultReported => stage == Stage::ReportingFault || stage == Stage::Stopping,
    }
}

/// The state a run starts in, before its first action.
pub open spec fn initial_run(inputs: nat) -> LintRunView {
    LintRunView {
        inputs,
        next_input: 0,
        files: Seq::empty(),
        current: None,
        outcome: LintOutcome { files_with_findings: 0, faults: 0, stopped: None },
        stage: Stage::Resolving,
    }
}

/// The next state and action of a run that receives `event`.
///
/// A fault on one input or file is counted and reported, and the run moves on, so one bad path
/// never hides the problems in the others. A file with findings is counted and its findings
/// delivered, in output order; a file without any is skipped. A failed delivery stops the run at
/// once.
pub open spec fn lint_step(run: LintRunView, event: EventView) -> (LintRunView, ActionView) {
    match event {
        EventView::Resolved(Ok(files)) => advance(LintRunView { files, ..run }),
        EventView::Resolved(Err(fault)) => (
            LintRunView {
                outcome: LintOutcome { faults: bump(run.outcome.faults), ..run.outcome },
                stage: Stage::ReportingFault,
                ..run
            },
            ActionView::ReportFault(walk_fault_as_lint_fault(fault)),
        ),
        EventView::Read(Err(fault)) => (
            LintRunView {
                current: None,
                outcome: LintOutcome { faults: bump(run.outcome.faults), ..run.outcome },
                stage: Stage::ReportingFault,
                ..run
            },
            ActionView::ReportFault(read_fault_as_lint_fault(fault)),
        ),
        EventView::Read(Ok(doc)) => {
            let findings = output_findings(doc);
            if findings.len() == 0 {
                advance(LintRunView { current: None, ..run })
            } else {
                (
                    LintRunView {
                        current: None,
                        outcome: LintOutcome {
                            files_with_findings: bump(run.outcome.files_with_findings),
                            ..run.outcome
                        },
                        stage: Stage::Reporting,
                        ..run
                    },
                    ActionView::ReportFindings(run.current->0, findings),
                )
            }
        },
        EventView::Delivered(Ok(())) => if run.stage == Stage::Reporting {
            advance(run)
        } else {
            (LintRunView { stage: Stage::Done, ..run }, ActionView::Done(run.outcome))
        },
        EventView::Delivered(Err(failure)) => stop(run, failure),
        EventView::FaultReported => if run.stage == Stage::ReportingFault {
            advance(run)
        } else {
            (LintRunView { stage: Stage::Done, ..run }, ActionView::Done(run.outcome))
        },
    }
}

/// What every run holds between steps: it never resolves past its last input, it holds a file to
/// read exactly while it waits for one, it has no file left of an input while it waits for the
/// next input to be resolved, it finishes only with every input resolved and every file handled,
/// and it stops early only for an output failure.
pub open spec fn run_wf(run: LintRunView) -> bool {
    &&& run.next_input <= run.inputs
    &&& (run.current is Some <==> run.stage == Stage::Reading)
    &&& (run.stage == Stage::Resolving ==> run.files.len() == 0)
    &&& (run.stage == Stage::Finishing ==> run.files.len() == 0 && run.next_input == run.inputs)
    &&& (run.stage == Stage::Stopping ==> run.outcome.stopped is Some)
    &&& (run.stage == Stage::Done && run.outcome.stopped is None ==> run.files.len() == 0
        && run.next_input == run.inputs)
}

/// Moving on keeps a run well formed, and never ends it: the next action is to read a file, to
/// resolve an input, or to finish.
proof fn lemma_advance_wf(run: LintRunView)
    requires
        run.next_input <= run.inputs,
        run.current is None,
    ensures
        run_wf(advance(run).0),
        advance(run).0.outcome == run.outcome,
        advance(run).1 is Read || advance(run).1 is Resolve || advance(run).1 is Finish,
{
}

/// A run starts well formed, and every event it waits for keeps it so.
pub proof fn lemma_run_stays_well_formed(inputs: nat, run: LintRunView, event: EventView)
    requires
        run_wf(run),
        accepts(run.stage, event),
    ensures
        run_wf(advance(initial_run(inputs)).0),
        run_wf(lint_step(run, event).0),
{
    lemma_advance_wf(initial_run(inputs));
    match event {
        EventView::Resolved(Ok(files)) => lemma_advance_wf(LintRunView { files, ..run }),
        EventView::Read(Ok(doc)) => lemma_advance_wf(LintRunView { current: None, ..run }),
        EventView::Delivered(Ok(())) => if run.stage == Stage::Reporting {
            lemma_advance_wf(run);
        },
        EventView::FaultReported => if run.stage == Stage::ReportingFault {
            lemma_advance_wf(run);
        },
        _ => {},
    }
}

/// Replaying answers the run waits for keeps it well formed, and never changes how many inputs it
/// covers.
proof fn lemma_replay_wf(start: LintRunView, events: Seq<EventView>)
    requires
        run_wf(start),
    ensures
        match replay(start, events) {
            Some(end) => run_wf(end) && end.inputs == start.inputs,
            None => true,
        },
    decreases events.len(),
{
    if events.len() > 0 {
        lemma_replay_wf(start, events.drop_last());
        if let Some(before) = replay(start, events.drop_last()) {
            if accepts(before.stage, events.last()) {
                lemma_run_stays_well_formed(0, before, events.last());
                lemma_run_waits_for_its_action(0, before, events.last());
            }
        }
    }
}

/// A run that ends without an output failure has resolved every one of its inputs and handled
/// every file they resolved to: one bad path never hides the others.
pub proof fn lemma_run_ends_complete(inputs: nat, events: Seq<EventView>)
    ensures
        match replay(advance(initial_run(inputs)).0, events) {
            Some(end) => end.stage == Stage::Done && end.outcome.stopped is None ==> end.next_input
                == inputs && end.files.len() == 0,
            None => true,
        },
{
    lemma_advance_wf(initial_run(inputs));
    lemma_replay_wf(advance(initial_run(inputs)).0, events);
}

/// The inputs are resolved one after another, in order, and the files of each are read one after
/// another, in order, each once: a run reads the first file left of the current input and drops
/// it from those left, resolves the input after the last it resolved only when no file is left,
/// and finishes only once every input is resolved and every file of the last one handled.
pub proof fn lemma_inputs_in_order(run: LintRunView)
    requires
        run_wf(run),
        run.current is None,
    ensures
        advance(run).1 is Read <==> run.files.len() > 0,
        advance(run).1 is Read ==> advance(run).0.current == Some(run.files[0])
            && advance(run).0.files == run.files.drop_first(),
        advance(run).1 == ActionView::Resolve(run.next_input) ==> advance(run).0.next_input
            == run.next_input + 1,
        advance(run).1 is Resolve ==> advance(run).1 == ActionView::Resolve(run.next_input)
            && run.files.len() == 0,
        advance(run).1 is Finish <==> (run.files.len() == 0 && run.next_input == run.inputs),
{
}

/// A fault met while resolving an input is counted once and reported as the same fault, and the
/// run then goes on exactly as if the input had resolved to no files: one bad path never hides
/// the problems in the others.
pub proof fn lemma_walk_fault_skips_input(run: LintRunView, fault: WalkFault)
    requires
        run_wf(run),
        run.stage == Stage::Resolving,
    ensures
        ({
            let (reported, action) = lint_step(run, EventView::Resolved(Err(fault)));
            let (skipped, next) = lint_step(run, EventView::Resolved(Ok(Seq::empty())));
            &&& action == ActionView::ReportFault(walk_fault_as_lint_fault(fault))
            &&& reported.outcome == LintOutcome { faults: bump(run.outcome.faults), ..run.outcome }
            &&& reported.stage == Stage::ReportingFault
            &&& lint_step(reported, EventView::FaultReported) == (
                LintRunView { outcome: reported.outcome, ..skipped },
                next,
            )
        }),
{
    assert(run.files =~= Seq::<PathBuf>::empty());
    assert(LintRunView { files: Seq::<PathBuf>::empty(), ..run } == run);
}

/// A fault met while reading a file is counted once and reported as the same fault, and the run
/// then goes on exactly as after a file without findings.
pub proof fn lemma_read_fault_skips_file(run: LintRunView, fault: ReadFault, clean: DocumentView)
    requires
        run_wf(run),
        run.stage == Stage::Reading,
        output_findings(clean).len() == 0,
    ensures
        ({
            let (reported, action) = lint_step(run, EventView::Read(Err(fault)));
            let (skipped, next) = lint_step(run, EventView::Read(Ok(clean)));
            &&& action == ActionView::ReportFault(read_fault_as_lint_fault(fault))
            &&& reported.outcome == LintOutcome { faults: bump(run.outcome.faults), ..run.outcome }
            &&& lint_step(reported, EventView::FaultReported) == (
                LintRunView { outcome: reported.outcome, ..skipped },
                next,
            )
        }),
{
}

/// A file is reported exactly when it has findings, with all of them in output order, and the
/// run then waits for their delivery before it resolves or reads anything else.
pub proof fn lemma_file_reported_iff_findings(run: LintRunView, doc: DocumentView, event: EventView)
    requires
        run_wf(run),
        run.stage == Stage::Reading,
    ensures
        ({
            let (after, action) = lint_step(run, EventView::Read(Ok(doc)));
            &&& (action is ReportFindings <==> output_findings(doc).len() > 0)
            &&& action is ReportFindings ==> {
                &&& action == ActionView::ReportFindings(run.current->0, output_findings(doc))
                &&& after.outcome == LintOutcome {
                    files_with_findings: bump(run.outcome.files_with_findings),
                    ..run.outcome
                }
                &&& (accepts(after.stage, event) <==> event is Delivered)
            }
            &&& !(action is ReportFindings) ==> after.outcome == run.outcome
        }),
{
    lemma_advance_wf(LintRunView { current: None, ..run });
}

/// When the output fails, the run stops at once: a closed output ends it, and any other failure
/// is reported once, as an unwritable output, before it ends. No further input is resolved and no
/// further file read, and the outcome records the failure.
pub proof fn lemma_output_failure_stops(run: LintRunView, failure: ReportFault)
    requires
        run.stage == Stage::Reporting || run.stage == Stage::Finishing,
    ensures
        ({
            let (after, action) = lint_step(run, EventView::Delivered(Err(failure)));
            let stopped = LintOutcome { stopped: Some(failure), ..run.outcome };
            &&& after.outcome == stopped
            &&& after.next_input == run.next_input
            &&& after.files == run.files
            &&& match failure {
                ReportFault::Closed => after.stage == Stage::Done && action == ActionView::Done(
                    stopped,
                ),
                ReportFault::Unwritable { detail } => {
                    &&& action == ActionView::ReportFault(LintFault::OutputUnwritable { detail })
                    &&& lint_step(after, EventView::FaultReported) == (
                        LintRunView { stage: Stage::Done, ..after },
                        ActionView::Done(stopped),
                    )
                },
            }
        }),
{
}

/// Delivering the end of the output ends the run with the counts so far.
pub proof fn lemma_finish_ends_run(run: LintRunView)
    requires
        run.stage == Stage::Finishing,
    ensures
        lint_step(run, EventView::Delivered(Ok(()))) == (
            LintRunView { stage: Stage::Done, ..run },
            ActionView::Done(run.outcome),
        ),
{
}

/// A run that is over waits for nothing.
pub proof fn lemma_done_accepts_nothing(event: EventView)
    ensures
        !accepts(Stage::Done, event),
{
}

/// A fault or an output failure always gives exit code 2, however many files had findings;
/// without either, the code is 1 when some file had findings and 0 when none had.
pub proof fn lemma_exit_code_precedence(outcome: LintOutcome)
    ensures
        (outcome.faults > 0 || outcome.stopped is Some) ==> outcome_exit_code(outcome) == 2,
        !(outcome.faults > 0 || outcome.stopped is Some) ==> (outcome_exit_code(outcome) == 1
            <==> outcome.files_with_findings > 0),
        !(outcome.faults > 0 || outcome.stopped is Some) ==> (outcome_exit_code(outcome) == 0
            <==> outcome.files_with_findings == 0),
{
}

/// Whether a run waits for the answer to `action`: the stage that takes that answer, and, for an
/// input to resolve, an input that exists; a run that is over holds the outcome it ended with.
pub open spec fn waits_for(run: LintRunView, action: ActionView) -> bool {
    match action {
        ActionView::Resolve(input) => run.stage == Stage::Resolving && input < run.inputs
            && run.next_input == input + 1,
        ActionView::Read => run.stage == Stage::Reading,
        ActionView::ReportFindings(..) => run.stage == Stage::Reporting,
        ActionView::ReportFault(_) => run.stage == Stage::ReportingFault || run.stage
            == Stage::Stopping,
        ActionView::Finish => run.stage == Stage::Finishing,
        ActionView::Done(outcome) => run.stage == Stage::Done && run.outcome == outcome,
    }
}

proof fn lemma_advance_waits(run: LintRunView)
    requires
        run.next_input <= run.inputs,
        run.current is None,
    ensures
        waits_for(advance(run).0, advance(run).1),
        advance(run).0.inputs == run.inputs,
{
}

/// A run always waits for the answer to the action it last gave, and never changes how many
/// inputs it covers.
pub proof fn lemma_run_waits_for_its_action(inputs: nat, run: LintRunView, event: EventView)
    requires
        run_wf(run),
        accepts(run.stage, event),
    ensures
        waits_for(advance(initial_run(inputs)).0, advance(initial_run(inputs)).1),
        waits_for(lint_step(run, event).0, lint_step(run, event).1),
        lint_step(run, event).0.inputs == run.inputs,
{
    lemma_advance_waits(initial_run(inputs));
    match event {
        EventView::Resolved(Ok(files)) => lemma_advance_waits(LintRunView { files, ..run }),
        EventView::Read(Ok(doc)) => lemma_advance_waits(LintRunView { current: None, ..run }),
        EventView::Delivered(Ok(())) => if run.stage == Stage::Reporting {
            lemma_advance_waits(run);
        },
        EventView::FaultReported => if run.stage == Stage::ReportingFault {
            lemma_advance_waits(run);
        },
        _ => {},
    }
}

/// How far a stage is from the end of the handling of one file.
pub open spec fn stage_rank(stage: Stage) -> nat {
    match stage {
        Stage::Reporting => 5,
        Stage::ReportingFault => 5,
        Stage::Reading => 4,
        Stage::Resolving => 3,
        Stage::Finishing => 2,
        Stage::Stopping => 1,
        Stage::Done => 0,
    }
}

/// The inputs a run has still to resolve, counting the one it waits to have resolved.
pub open spec fn inputs_left(run: LintRunView) -> nat {
    ((run.inputs - run.next_input) + if run.stage == Stage::Resolving { 1int } else { 0int }) as nat
}

/// The files of the current input a run has still to read, counting the one it waits to have
/// read.
pub open spec fn files_left(run: LintRunView) -> nat {
    run.files.len() + if run.stage == Stage::Reading { 1nat } else { 0nat }
}

/// Every step brings a run closer to its end: fewer inputs left, or as many and fewer files
/// left, or as many of both and a later stage. A run over finitely many inputs, whose inputs
/// resolve to finitely many files, therefore ends.
pub proof fn lemma_step_progresses(run: LintRunView, event: EventView)
    requires
        run_wf(run),
        accepts(run.stage, event),
    ensures
        ({
            let after = lint_step(run, event).0;
            inputs_left(after) < inputs_left(run) || (inputs_left(after) == inputs_left(run) && (
            files_left(after) < files_left(run) || (files_left(after) == files_left(run)
                && stage_rank(after.stage) < stage_rank(run.stage))))
        }),
{
}

/// The run a sequence of answers leads to from `run`, when each answer is one the run waits for
/// at its turn.
pub open spec fn replay(run: LintRunView, events: Seq<EventView>) -> Option<LintRunView>
    decreases events.len(),
{
    if events.len() == 0 {
        Some(run)
    } else {
        match replay(run, events.drop_last()) {
            Some(before) => if accepts(before.stage, events.last()) {
                Some(lint_step(before, events.last()).0)
            } else {
                None
            },
            None => None,
        }
    }
}

/// Whether some sequence of answers takes a run over `inputs` inputs from its start to its end
/// with `outcome`.
pub open spec fn run_can_end_with(inputs: nat, outcome: LintOutcome) -> bool {
    exists|events: Seq<EventView>|
        #[trigger] replay(advance(initial_run(inputs)).0, events) matches Some(end) && end.stage
            == Stage::Done && end.outcome == outcome
}

/// Where a run is, holding the file being read while it waits for one.
enum Waiting {
    Resolving,
    Reading(PathBuf),
    Reporting,
    ReportingFault,
    Finishing,
    Stopping,
    Done,
}

spec fn waiting_stage(waiting: Waiting) -> Stage {
    match waiting {
        Waiting::Resolving => Stage::Resolving,
        Waiting::Reading(_) => Stage::Reading,
        Waiting::Reporting => Stage::Reporting,
        Waiting::ReportingFault => Stage::ReportingFault,
        Waiting::Finishing => Stage::Finishing,
        Waiting::Stopping => Stage::Stopping,
        Waiting::Done => Stage::Done,
    }
}

spec fn waiting_file(waiting: Waiting) -> Option<PathBuf> {
    match waiting {
        Waiting::Reading(path) => Some(path),
        _ => None,
    }
}

/// One run of the use case over a list of inputs: it walks, reads, parses, and checks every input
/// in order, handing results out as they are produced.
///
/// [`LintRun::start`] gives the first action, and [`LintRun::step`] takes what came of each
/// action and gives the next, as [`lint_step`] says, until [`LintAction::Done`].
pub struct LintRun {
    inputs: usize,
    next_input: usize,
    files: Vec<PathBuf>,
    waiting: Waiting,
    outcome: LintOutcome,
}

impl View for LintRun {
    type V = LintRunView;

    closed spec fn view(&self) -> LintRunView {
        LintRunView {
            inputs: self.inputs as nat,
            next_input: self.next_input as nat,
            files: self.files@.reverse(),
            current: waiting_file(self.waiting),
            outcome: self.outcome,
            stage: waiting_stage(self.waiting),
        }
    }
}

impl LintRun {
    /// Moves on from the current state, as [`advance`] says.
    fn next_action(&mut self) -> (res: LintAction)
        requires
            waiting_file(old(self).waiting) is None,
        ensures
            (final(self)@, action_view(res)) == advance(old(self)@),
    {
        if let Some(file) = self.files.pop() {
            proof {
                assert(self.files@.reverse() =~= old(self).files@.reverse().drop_first());
                assert(old(self).files@.reverse()[0] == file);
            }
            self.waiting = Waiting::Reading(file);
            LintAction::Read
        } else if self.next_input < self.inputs {
            let input = self.next_input;
            self.next_input = input + 1;
            self.waiting = Waiting::Resolving;
            LintAction::Resolve(input)
        } else {
            self.waiting = Waiting::Finishing;
            LintAction::Finish
        }
    }

    /// Starts a run over `inputs` inputs, and returns it with its first action.
    pub fn start(inputs: usize) -> (res: (LintRun, LintAction))
        ensures
            (res.0@, action_view(res.1)) == advance(initial_run(inputs as nat)),
    {
        let mut run = LintRun {
            inputs,
            next_input: 0,
            files: Vec::new(),
            waiting: Waiting::Resolving,
            outcome: LintOutcome::default(),
        };
        assert(run@ == initial_run(inputs as nat)) by {
            assert(run.files@.reverse() =~= Seq::<PathBuf>::empty());
        }
        let action = run.next_action();
        (run, action)
    }

    /// The file to read and parse while the run waits for [`LintEvent::Read`].
    pub fn current_file(&self) -> (res: Option<&PathBuf>)
        ensures
            match self@.current {
                Some(path) => res == Some(&path),
                None => res is None,
            },
    {
        match &self.waiting {
            Waiting::Reading(path) => Some(path),
            _ => None,
        }
    }

    /// The stage the run is at.
    pub fn stage(&self) -> (res: Stage)
        ensures
            res == self@.stage,
    {
        match self.waiting {
            Waiting::Resolving => Stage::Resolving,
            Waiting::Reading(_) => Stage::Reading,
            Waiting::Reporting => Stage::Reporting,
            Waiting::ReportingFault => Stage::ReportingFault,
            Waiting::Finishing => Stage::Finishing,
            Waiting::Stopping => Stage::Stopping,
            Waiting::Done => Stage::Done,
        }
    }

    /// Whether the run waits for `event` at its stage.
    pub fn accepts(&self, event: &LintEvent) -> (res: bool)
        ensures
            res == accepts(self@.stage, event_view(*event)),
    {
        let stage = self.stage();
        match event {
            LintEvent::Resolved(_) => stage == Stage::Resolving,
            LintEvent::Read(_) => stage == Stage::Reading,
            LintEvent::Delivered(_) => stage == Stage::Reporting || stage == Stage::Finishing,
            LintEvent::FaultReported => stage == Stage::ReportingFault || stage == Stage::Stopping,
        }
    }
    /// Takes what came of the last action, and gives the next action, as [`lint_step`] says.
    pub fn step(&mut self, event: LintEvent) -> (res: LintAction)
        requires
            accepts(old(self)@.stage, event_view(event)),
        ensures
            (final(self)@, action_view(res)) == lint_step(old(self)@, event_view(event)),
    {
        let ghost before = self@;
        match event {
            LintEvent::Resolved(Ok(files)) => {
                let ghost given = files@;
                let mut files = files;
                let mut reversed: Vec<PathBuf> = Vec::new();
                assert(files@ + reversed@.reverse() =~= given);
                while files.len() > 0
                    invariant
                        files@ + reversed@.reverse() == given,
                    decreases files@.len(),
                {
                    let ghost previous_files = files@;
                    let ghost previous_reversed = reversed@;
                    let file = files.pop().unwrap();
                    reversed.push(file);
                    assert(reversed@.reverse() =~= seq![file] + previous_reversed.reverse());
                    assert(files@ + reversed@.reverse() =~= previous_files + previous_reversed.reverse());
                }
                assert(reversed@.reverse() =~= given);
                self.files = reversed;
                assert(self@ == LintRunView { files: given, ..before });
                self.next_action()
            },
            LintEvent::Resolved(Err(fault)) => {
                self.outcome.faults = if self.outcome.faults < usize::MAX {
                    self.outcome.faults + 1
                } else {
                    self.outcome.faults
                };
                self.waiting = Waiting::ReportingFault;
                LintAction::ReportFault(LintFault::from(fault))
            },
            LintEvent::Read(Err(fault)) => {
                self.outcome.faults = if self.outcome.faults < usize::MAX {
                    self.outcome.faults + 1
                } else {
                    self.outcome.faults
                };
                self.waiting = Waiting::ReportingFault;
                LintAction::ReportFault(LintFault::from(fault))
            },
            LintEvent::Read(Ok(doc)) => {
                let mut waiting = Waiting::Done;
                std::mem::swap(&mut waiting, &mut self.waiting);
                match waiting {
                    Waiting::Reading(path) => {
                        let findings = check_in_output_order(&doc);
                        if findings.len() == 0 {
                            self.waiting = Waiting::Resolving;
                            assert(self@ == LintRunView { current: None, stage: Stage::Resolving, ..before });
                            self.next_action()
                        } else {
                            self.outcome.files_with_findings = if self.outcome.files_with_findings
                                < usize::MAX {
                                self.outcome.files_with_findings + 1
                            } else {
                                self.outcome.files_with_findings
                            };
                            self.waiting = Waiting::Reporting;
                            LintAction::ReportFindings(FileFindings { path, findings })
                        }
                    },
                    _ => {
                        assert(false);
                        LintAction::Finish
                    },
                }
            },
            LintEvent::Delivered(Ok(())) => {
                if self.stage() == Stage::Reporting {
                    self.next_action()
                } else {
                    self.waiting = Waiting::Done;
                    LintAction::Done(self.outcome.copy())
                }
            },
            LintEvent::Delivered(Err(failure)) => {
                let detail = match &failure {
                    ReportFault::Unwritable { detail } => Some(detail.clone()),
                    ReportFault::Closed => None,
                };
                self.outcome.stopped = Some(failure);
                match detail {
                    Some(detail) => {
                        self.waiting = Waiting::Stopping;
                        LintAction::ReportFault(LintFault::OutputUnwritable { detail })
                    },
                    None => {
                        self.waiting = Waiting::Done;
                        LintAction::Done(self.outcome.copy())
                    },
                }
            },
            LintEvent::FaultReported => {
                if self.stage() == Stage::ReportingFault {
                    self.next_action()
                } else {
                    self.waiting = Waiting::Done;
                    LintAction::Done(self.outcome.copy())
                }
            },
        }
    }
}

/// The state and last action a sequence of answers leads to from `first`, when each answer is one
/// the run waits for at its turn.
pub open spec fn replay_acting(first: (LintRunView, ActionView), events: Seq<EventView>) -> Option<
    (LintRunView, ActionView),
>
    decreases events.len(),
{
    if events.len() == 0 {
        Some(first)
    } else {
        match replay_acting(first, events.drop_last()) {
            Some(before) => if accepts(before.0.stage, events.last()) {
                Some(lint_step(before.0, events.last()))
            } else {
                None
            },
            None => None,
        }
    }
}

/// Replaying with actions reaches the state plain replaying reaches.
proof fn lemma_replay_acting(first: (LintRunView, ActionView), events: Seq<EventView>)
    ensures
        match replay_acting(first, events) {
            Some(end) => replay(first.0, events) == Some(end.0),
            None => replay(first.0, events) is None,
        },
    decreases events.len(),
{
    if events.len() > 0 {
        lemma_replay_acting(first, events.drop_last());
    }
}

/// Whether `event` is an answer the ports may have given to `before`'s action: the resolution the
/// walker may give for the input it was asked to resolve, the document the parser may give for a
/// source the reader may give for the file being read, a fault the reader may give for that file,
/// the answer the reporter, in state `reporter`, may give when handed the findings the run gave
/// it or asked to finish, or the receipt of the fault the run gave it.
pub open spec fn answered_by<W: Walker, R: SourceReader, P: MarkdownParser, O: Reporter>(
    walker: W,
    reader: R,
    parser: P,
    reporter: O,
    inputs: Seq<PathBuf>,
    before: (LintRunView, ActionView),
    event: EventView,
) -> bool {
    match event {
        EventView::Resolved(result) => match before.1 {
            ActionView::Resolve(input) => walker.resolves_to(inputs[input as int], result),
            _ => false,
        },
        EventView::Read(Ok(doc)) => exists|source: String|
            #[trigger] reader.reads_as(before.0.current->0, Ok(source)) && parser.parses_to(source@, doc),
        EventView::Read(Err(fault)) => reader.reads_as(before.0.current->0, Err(fault)),
        EventView::Delivered(result) => match before.1 {
            ActionView::ReportFindings(path, findings) => exists|file: FileFindings|
                #[trigger] reporter.delivers(file, result) && file.path == path && finding_views(
                    file.findings@,
                ) == findings,
            ActionView::Finish => reporter.finishes(result),
            _ => false,
        },
        EventView::FaultReported => match before.1 {
            ActionView::ReportFault(fault) => reporter.takes_fault(fault),
            _ => false,
        },
    }
}

/// Whether every answer in `events`, replayed from `first`, is one the ports may have given at its
/// turn, the reporter being in state `reporters[k]` when it gave answer `k`.
pub open spec fn answered_throughout<W: Walker, R: SourceReader, P: MarkdownParser, O: Reporter>(
    walker: W,
    reader: R,
    parser: P,
    reporters: Seq<O>,
    inputs: Seq<PathBuf>,
    first: (LintRunView, ActionView),
    events: Seq<EventView>,
) -> bool
    decreases events.len(),
{
    if events.len() == 0 {
        reporters.len() == 0
    } else {
        &&& reporters.len() == events.len()
        &&& answered_throughout(
            walker,
            reader,
            parser,
            reporters.drop_last(),
            inputs,
            first,
            events.drop_last(),
        )
        &&& match replay_acting(first, events.drop_last()) {
            Some(before) => answered_by(walker, reader, parser, reporters.last(), inputs, before, events.last()),
            None => false,
        }
    }
}

/// Whether the run over `inputs` ends with `outcome` on answers the ports may give: every input
/// resolved as the walker resolves it, every file checked as the document the parser gives for the
/// source the reader gives, and every delivery answered by the reporter it was handed to.
pub open spec fn ends_with_answers<W: Walker, R: SourceReader, P: MarkdownParser, O: Reporter>(
    walker: W,
    reader: R,
    parser: P,
    inputs: Seq<PathBuf>,
    outcome: LintOutcome,
) -> bool {
    exists|events: Seq<EventView>, reporters: Seq<O>|
        #[trigger] replay_acting(advance(initial_run(inputs.len())), events) matches Some(end) && end.0.stage
            == Stage::Done && end.0.outcome == outcome && #[trigger] answered_throughout(
            walker,
            reader,
            parser,
            reporters,
            inputs,
            advance(initial_run(inputs.len())),
            events,
        )
}

/// Walks, reads, parses, and checks every path in `inputs`, in order, handing results to
/// `reporter` as they are produced, as [`LintRun`] decides.
///
/// Each file's findings reach the reporter before the next path is resolved or read, and each
/// fault reaches it when it occurs. A fault on one input (not found, unreadable, not a regular
/// file, too large, invalid UTF-8) is reported and that input is skipped; every other input is
/// still processed. After the last input, the reporter is finished. When the reporter fails to
/// deliver findings or to finish, the run stops at once: no further path is resolved or read,
/// and the failure is recorded in [`LintOutcome::stopped`]. A closed output is not reported
/// further; any other output failure is reported once, as [`LintFault::OutputUnwritable`].
///
/// What the ports answer decides the outcome: it is the one the run ends with for those answers.
pub fn run_lint<W: Walker, R: SourceReader, P: MarkdownParser, O: Reporter>(
    inputs: &[PathBuf],
    walker: &W,
    reader: &R,
    parser: &P,
    reporter: &mut O,
) -> (res: LintOutcome)
    ensures
        run_can_end_with(inputs@.len() as nat, res),
        ends_with_answers::<W, R, P, O>(*walker, *reader, *parser, inputs@, res),
{
    let ghost first = advance(initial_run(inputs@.len() as nat));
    let (mut run, mut action) = LintRun::start(inputs.len());
    let ghost mut events: Seq<EventView> = Seq::empty();
    let ghost mut reporters: Seq<O> = Seq::empty();
    proof {
        lemma_advance_wf(initial_run(inputs@.len() as nat));
        lemma_advance_waits(initial_run(inputs@.len() as nat));
    }
    loop
        invariant
            run_wf(run@),
            run@.inputs == inputs@.len(),
            waits_for(run@, action_view(action)),
            first == advance(initial_run(inputs@.len() as nat)),
            replay_acting(first, events) == Some((run@, action_view(action))),
            answered_throughout(*walker, *reader, *parser, reporters, inputs@, first, events),
        decreases inputs_left(run@), files_left(run@), stage_rank(run@.stage),
    {
        let ghost before = run@;
        let ghost acted = action_view(action);
        let ghost reporter_before = *reporter;
        let event = match action {
            LintAction::Resolve(index) => LintEvent::Resolved(walker.resolve(&inputs[index])),
            LintAction::Read => {
                let read = match run.current_file() {
                    Some(path) => reader.read(path),
                    None => {
                        assert(false);
                        return LintOutcome::default();
                    },
                };
                match read {
                    Ok(source) => {
                        let doc = parser.parse(source.as_str());
                        proof {
                            assert(reader.reads_as(run@.current->0, Ok(source)));
                            assert(parser.parses_to(source@, doc@));
                        }
                        LintEvent::Read(Ok(doc))
                    },
                    Err(fault) => LintEvent::Read(Err(fault)),
                }
            },
            LintAction::ReportFindings(file) => {
                let delivered = reporter.report_findings(&file);
                proof {
                    assert(reporter_before.delivers(file, delivered));
                }
                LintEvent::Delivered(delivered)
            },
            LintAction::ReportFault(fault) => {
                reporter.report_fault(&fault);
                LintEvent::FaultReported
            },
            LintAction::Finish => LintEvent::Delivered(reporter.finish()),
            LintAction::Done(outcome) => {
                proof {
                    let n = inputs@.len() as nat;
                    lemma_replay_acting(first, events);
                    assert(replay(advance(initial_run(n)).0, events) matches Some(end) && end.stage
                        == Stage::Done && end.outcome == outcome);
                    assert(inputs@.len() == n);
                    assert(replay_acting(advance(initial_run(inputs@.len())), events) matches Some(end)
                        && end.0.stage == Stage::Done && end.0.outcome == outcome
                        && answered_throughout(
                        *walker,
                        *reader,
                        *parser,
                        reporters,
                        inputs@,
                        advance(initial_run(inputs@.len())),
                        events,
                    ));
                }
                return outcome;
            },
        };
        let ghost answer = event_view(event);
        assert(accepts(before.stage, answer));
        assert(answered_by(*walker, *reader, *parser, reporter_before, inputs@, (before, acted), answer));
        action = run.step(event);
        proof {
            lemma_run_stays_well_formed(inputs@.len() as nat, before, answer);
            lemma_run_waits_for_its_action(inputs@.len() as nat, before, answer);
            lemma_step_progresses(before, answer);
            assert(events.push(answer).drop_last() =~= events);
            assert(reporters.push(reporter_before).drop_last() =~= reporters);
            assert(answered_throughout(
                *walker,
                *reader,
                *parser,
                reporters.push(reporter_before),
                inputs@,
                first,
                events.push(answer),
            ));
            events = events.push(answer);
            reporters = reporters.push(reporter_before);
        }
    }
}

} // verus!
