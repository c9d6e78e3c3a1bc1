//! The `source` builtin: running the lines of files as commands. The host opens the files,
//! reads their lines and runs each line; the decisions (which line runs, when to stop, what
//! status comes out) are made here.

use vstd::prelude::*;
use crate::status::{CommandStatus, StatusView};
use crate::text::append_str;

verus! {

broadcast use vstd::string::group_string_axioms;

/// What the host tells a `source` run.
pub enum SourceEvent {
    /// The next file was opened.
    Opened,
    /// The next file could not be opened.
    OpenFailed,
    /// A line of the open file.
    Line(String),
    /// The open file has no more lines.
    FileDone,
    /// The line that was run yielded this status.
    LineDone(CommandStatus),
}

/// The view of an event.
pub enum SourceEventView {
    Opened,
    OpenFailed,
    Line(Seq<char>),
    FileDone,
    LineDone(StatusView),
}

impl View for SourceEvent {
    type V = SourceEventView;

    open spec fn view(&self) -> SourceEventView {
        match self {
            SourceEvent::Opened => SourceEventView::Opened,
            SourceEvent::OpenFailed => SourceEventView::OpenFailed,
            SourceEvent::Line(l) => SourceEventView::Line(l@),
            SourceEvent::FileDone => SourceEventView::FileDone,
            SourceEvent::LineDone(s) => SourceEventView::LineDone(s@),
        }
    }
}

/// What a `source` run asks of its host next.
pub enum SourceStep {
    /// Open the next file (`Opened` or `OpenFailed`).
    OpenNextFile,
    /// Read the next line of the open file (`Line` or `FileDone`).
    ReadLine,
    /// Run this line as a command (`LineDone`).
    Run(String),
    /// `source` is done; this is its status.
    Finished(CommandStatus),
}

/// The view of a step.
pub enum SourceStepView {
    OpenNextFile,
    ReadLine,
    Run(Seq<char>),
    Finished(StatusView),
}

impl View for SourceStep {
    type V = SourceStepView;

    open spec fn view(&self) -> SourceStepView {
        match self {
            SourceStep::OpenNextFile => SourceStepView::OpenNextFile,
            SourceStep::ReadLine => SourceStepView::ReadLine,
            SourceStep::Run(l) => SourceStepView::Run(l@),
            SourceStep::Finished(s) => SourceStepView::Finished(s@),
        }
    }
}

/// What a `source` run waits for.
pub enum SourceStageView {
    /// The outcome of opening the next file.
    Open,
    /// The next line of the open file, or its end.
    Read,
    /// The status of the line being run.
    Running,
    /// Nothing: the run is over.
    Done,
}

/// The state of a `source` run: the files not yet opened, the status so far, and the stage.
pub struct SourceView {
    pub files_left: nat,
    pub status: StatusView,
    pub stage: SourceStageView,
}

/// Whether the event answers what the stage waits for.
pub open spec fn fits(stage: SourceStageView, e: SourceEventView) -> bool {
    match stage {
        SourceStageView::Open => e is Opened || e is OpenFailed,
        SourceStageView::Read => e is Line || e is FileDone,
        SourceStageView::Running => e is LineDone,
        SourceStageView::Done => false,
    }
}

/// The state and first step of a run over `files` files: open the first one, or finish at once
/// with success when there is none.
pub open spec fn source_start(files: nat) -> (SourceView, SourceStepView) {
    if files == 0 {
        (
            SourceView { files_left: 0, status: StatusView::Normal, stage: SourceStageView::Done },
            SourceStepView::Finished(StatusView::Normal),
        )
    } else {
        (
            SourceView { files_left: files, status: StatusView::Normal, stage: SourceStageView::Open },
            SourceStepView::OpenNextFile,
        )
    }
}

/// After a file is done with (read to its end, or not opened): open the next one, or finish with
/// the status so far.
pub open spec fn after_file(s: SourceView) -> (SourceView, SourceStepView) {
    if s.files_left > 0 {
        (SourceView { stage: SourceStageView::Open, ..s }, SourceStepView::OpenNextFile)
    } else {
        (SourceView { stage: SourceStageView::Done, ..s }, SourceStepView::Finished(s.status))
    }
}

/// What event `e` does to state `s`: a file that cannot be opened makes the status `Error(1)`
/// and the run goes on with the next file; an empty line is skipped; any other line is run; a
/// line that asks the shell to exit ends the run with its status; after the last file the run
/// finishes with the status so far.
pub open spec fn source_step(s: SourceView, e: SourceEventView) -> (SourceView, SourceStepView) {
    match e {
        SourceEventView::Opened => (
            SourceView {
                files_left: (s.files_left - 1) as nat,
                stage: SourceStageView::Read,
                ..s
            },
            SourceStepView::ReadLine,
        ),
        SourceEventView::OpenFailed => after_file(
            SourceView {
                files_left: (s.files_left - 1) as nat,
                status: StatusView::Error(1),
                ..s
            },
        ),
        SourceEventView::Line(l) => if l.len() == 0 {
            (s, SourceStepView::ReadLine)
        } else {
            (SourceView { stage: SourceStageView::Running, ..s }, SourceStepView::Run(l))
        },
        SourceEventView::FileDone => after_file(s),
        SourceEventView::LineDone(st) => match st {
            StatusView::Exit(c) => (
                SourceView { status: StatusView::Exit(c), stage: SourceStageView::Done, ..s },
                SourceStepView::Finished(StatusView::Exit(c)),
            ),
            _ => (SourceView { stage: SourceStageView::Read, ..s }, SourceStepView::ReadLine),
        },
    }
}

enum SourceStage {
    Open,
    Read,
    Running,
    Done,
}

/// A `source` run over a list of files.
pub struct SourceRun {
    files_left: usize,
    status: CommandStatus,
    stage: SourceStage,
}

impl View for SourceRun {
    type V = SourceView;

    closed spec fn view(&self) -> SourceView {
        SourceView {
            files_left: self.files_left as nat,
            status: self.status@,
            stage: match self.stage {
                SourceStage::Open => SourceStageView::Open,
                SourceStage::Read => SourceStageView::Read,
                SourceStage::Running => SourceStageView::Running,
                SourceStage::Done => SourceStageView::Done,
            },
        }
    }
}

impl SourceRun {
    #[verifier::type_invariant]
    closed spec fn well_formed(self) -> bool {
        self.stage is Open ==> self.files_left > 0
    }

    /// Starts running `files` files; the step says what to do first.
    pub fn start(files: usize) -> (r: (SourceRun, SourceStep))
        ensures
            (r.0@, r.1@) == source_start(files as nat),
    {
        if files == 0 {
            (
                SourceRun { files_left: 0, status: CommandStatus::NORMAL, stage: SourceStage::Done },
                SourceStep::Finished(CommandStatus::NORMAL),
            )
        } else {
            (
                SourceRun { files_left: files, status: CommandStatus::NORMAL, stage: SourceStage::Open },
                SourceStep::OpenNextFile,
            )
        }
    }

    /// Whether the run waits for an event like `event`.
    pub fn accepts(&self, event: &SourceEvent) -> (b: bool)
        ensures
            b == fits(self@.stage, event@),
    {
        match (&self.stage, event) {
            (SourceStage::Open, SourceEvent::Opened) => true,
            (SourceStage::Open, SourceEvent::OpenFailed) => true,
            (SourceStage::Read, SourceEvent::Line(_)) => true,
            (SourceStage::Read, SourceEvent::FileDone) => true,
            (SourceStage::Running, SourceEvent::LineDone(_)) => true,
            _ => false,
        }
    }

    fn file_finished(&mut self) -> (r: SourceStep)
        ensures
            (final(self)@, r@) == after_file(old(self)@),
    {
        if self.files_left > 0 {
            self.stage = SourceStage::Open;
            SourceStep::OpenNextFile
        } else {
            self.stage = SourceStage::Done;
            SourceStep::Finished(self.status.duplicate())
        }
    }

    /// Takes the host's answer and says what to do next.
    pub fn next(&mut self, event: SourceEvent) -> (r: SourceStep)
        requires
            fits(old(self)@.stage, event@),
        ensures
            (final(self)@, r@) == source_step(old(self)@, event@),
    {
        proof {
            use_type_invariant(&*self);
        }
        match event {
            SourceEvent::Opened => {
                self.stage = SourceStage::Read;
                self.files_left = self.files_left - 1;
                SourceStep::ReadLine
            },
            SourceEvent::OpenFailed => {
                self.stage = SourceStage::Done;
                self.files_left = self.files_left - 1;
                self.status = CommandStatus::ERROR(1);
                self.file_finished()
            },
            SourceEvent::Line(l) => {
                if l.as_str().is_empty() {
                    SourceStep::ReadLine
                } else {
                    self.stage = SourceStage::Running;
                    SourceStep::Run(l)
                }
            },
            SourceEvent::FileDone => self.file_finished(),
            SourceEvent::LineDone(st) => match st {
                CommandStatus::EXIT(c) => {
                    self.status = CommandStatus::EXIT(c);
                    self.stage = SourceStage::Done;
                    SourceStep::Finished(CommandStatus::EXIT(c))
                },
                _ => {
                    self.stage = SourceStage::Read;
                    SourceStep::ReadLine
                },
            },
        }
    }
}

/// What `source` says of a file it cannot open.
pub fn source_open_message(file: &str) -> (r: String)
    ensures
        r@ == "cannot open file: "@ + file@,
{
    let mut r = "cannot open file: ".to_string();
    append_str(&mut r, file);
    r
}

/// The run of `files` files after the host's answers `events`, with the last step; `None` when
/// an answer is not one the run waits for.
pub open spec fn source_trace(files: nat, events: Seq<SourceEventView>) -> Option<
    (SourceView, SourceStepView),
>
    decreases events.len(),
{
    if events.len() == 0 {
        Some(source_start(files))
    } else {
        match source_trace(files, events.drop_last()) {
            Some(p) => if fits(p.0.stage, events.last()) {
                Some(source_step(p.0, events.last()))
            } else {
                None
            },
            None => None,
        }
    }
}

/// The exit code of the first run line that asked the shell to exit, if any.
pub open spec fn first_exit(events: Seq<SourceEventView>) -> Option<i32>
    decreases events.len(),
{
    if events.len() == 0 {
        None
    } else {
        match first_exit(events.drop_last()) {
            Some(c) => Some(c),
            None => match events.last() {
                SourceEventView::LineDone(StatusView::Exit(c)) => Some(c),
                _ => None,
            },
        }
    }
}

/// The status that `source` owes after the answers `events`: the exit of the first line that
/// asked to exit; else failure (`Error(1)`) when some file could not be opened; else success.
pub open spec fn source_result(events: Seq<SourceEventView>) -> StatusView {
    match first_exit(events) {
        Some(c) => StatusView::Exit(c),
        None => if events.contains(SourceEventView::OpenFailed) {
            StatusView::Error(1)
        } else {
            StatusView::Normal
        },
    }
}

/// How many files the host tried to open (`Opened` or `OpenFailed`).
pub open spec fn open_attempts(events: Seq<SourceEventView>) -> nat
    decreases events.len(),
{
    if events.len() == 0 {
        0
    } else {
        open_attempts(events.drop_last()) + if events.last() is Opened
            || events.last() is OpenFailed {
            1nat
        } else {
            0nat
        }
    }
}

proof fn lemma_trace_invariant(files: nat, events: Seq<SourceEventView>)
    ensures
        source_trace(files, events) matches Some(p) ==> {
            &&& p.0.files_left + open_attempts(events) == files
            &&& p.0.stage is Done ==> p.0.files_left == 0 || first_exit(events) is Some
            &&& p.0.status == source_result(events)
            &&& first_exit(events) is Some ==> p.0.stage is Done
            &&& p.0.stage is Open ==> p.0.files_left > 0
            &&& p.1 is Finished <==> p.0.stage is Done
            &&& p.1 matches SourceStepView::Finished(st) ==> st == p.0.status
        },
    decreases events.len(),
{
    if events.len() > 0 {
        let prev = events.drop_last();
        lemma_trace_invariant(files, prev);
        let e = events.last();
        assert(events =~= prev.push(e));
        assert forall|x: SourceEventView| #[trigger] events.contains(x) <==> (prev.contains(x) || x == e) by {
            if events.contains(x) {
                let j = choose|j: int| 0 <= j < events.len() && events[j] == x;
                if j < prev.len() {
                    assert(prev[j] == x);
                }
            }
            if prev.contains(x) {
                let j = choose|j: int| 0 <= j < prev.len() && prev[j] == x;
                assert(events[j] == x);
            }
            if x == e {
                assert(events[events.len() - 1] == x);
            }
        }
    }
}

/// Whatever the host answers, a `source` run that finishes yields the exit of the first line
/// that asked the shell to exit; else `Error(1)` when some file could not be opened; else
/// success. Once it has finished it takes no further answer.
pub proof fn law_source_result(files: nat, events: Seq<SourceEventView>, more: SourceEventView)
    ensures
        source_trace(files, events) matches Some(p) ==> (p.1 is Finished ==> p.1
            == SourceStepView::Finished(source_result(events))),
        source_trace(files, events) matches Some(p) ==> (p.1 is Finished ==> source_trace(
            files,
            events.push(more),
        ) is None),
{
    lemma_trace_invariant(files, events);
    assert(events.push(more).drop_last() =~= events);
}

/// `source` goes through every file: a run finishes only after the host tried to open each of
/// the files, unless a line asked the shell to exit.
pub proof fn law_source_reaches_every_file(files: nat, events: Seq<SourceEventView>)
    ensures
        source_trace(files, events) matches Some(p) ==> (p.1 is Finished ==> open_attempts(events)
            == files || first_exit(events) is Some),
{
    lemma_trace_invariant(files, events);
}

/// Every line read is run, but for empty lines, which are skipped; the line is run as it was
/// read.
pub proof fn law_source_runs_lines(files: nat, events: Seq<SourceEventView>, l: Seq<char>)
    requires
        source_trace(files, events) matches Some(p) && p.0.stage is Read,
    ensures
        source_trace(files, events.push(SourceEventView::Line(l))) matches Some(q) && q.1 == (if l.len()
            == 0 {
            SourceStepView::ReadLine
        } else {
            SourceStepView::Run(l)
        }),
{
    assert(events.push(SourceEventView::Line(l)).drop_last() =~= events);
}

/// A run line that asks the shell to exit ends `source` at once with that exit.
pub proof fn law_exit_stops_source(files: nat, events: Seq<SourceEventView>, c: i32)
    requires
        source_trace(files, events) matches Some(p) && p.0.stage is Running,
    ensures
        ({
            let s = source_trace(files, events)->0;
            source_trace(files, events.push(SourceEventView::LineDone(StatusView::Exit(c)))) == Some(
                (
                    SourceView { status: StatusView::Exit(c), stage: SourceStageView::Done, ..s.0 },
                    SourceStepView::Finished(StatusView::Exit(c)),
                ),
            )
        }),
{
    assert(events.push(SourceEventView::LineDone(StatusView::Exit(c))).drop_last() =~= events);
}

} // verus!
