//! The extraction worker: the decisions one worker takes while it goes
//! through its chunk of the manifest.
//!
//! A worker does no I/O itself. It is a state machine that is told what
//! happened (`WorkerEvent`) and answers with what has to be done next
//! (`WorkerAction`); whoever drives it performs the archive lookups and the
//! writes. A worker starts `Idle`, is `Running` while it has paths left, and
//! ends `Done`. While running it takes its paths in order: it asks for the
//! bytes of the current path, skips the path if the archive does not hold it,
//! and otherwise asks for the bytes to be written to the path's place under
//! the output root. A failed write ends the worker at once; a path that is
//! not found never does.

use crate::output::{output_path, output_path_spec};
use crate::progress::{ProgressCounter, ProgressReport};
use vstd::prelude::*;

verus! {

/// What became of one path of the chunk.
#[derive(Clone, Copy, Debug, PartialEq, Eq, Structural)]
pub enum ExtractionOutcome {
    /// The archive held the path and its bytes, this many, were written.
    Extracted(usize),
    /// The archive holds no entry for the path.
    NotFound,
    /// The output directory could not be created or the file not written.
    WriteFailed,
}

/// What one worker has to show for itself.
#[derive(Clone, Copy, Debug, PartialEq, Eq, Structural)]
pub struct WorkerReport {
    /// The number of paths extracted.
    pub extracted: usize,
    /// The number of paths skipped because the archive does not hold them.
    pub skipped: usize,
    /// Whether a failed write ended the worker.
    pub failed: bool,
}

/// The coarse life cycle of a worker.
#[derive(Clone, Copy, Debug, PartialEq, Eq, Structural)]
pub enum WorkerPhase {
    Idle,
    Running,
    Done,
}

/// Where exactly a worker stands.
#[derive(Clone, Copy, Debug, PartialEq, Eq, Structural)]
pub enum Stage {
    /// Not started yet.
    Idle,
    /// Waiting for the archive's answer on the current path.
    Reading,
    /// Waiting for the current path's bytes, `len` of them, to be written.
    Writing { len: usize },
    /// Finished: the chunk is exhausted or a write has failed.
    Done,
}

/// What a worker is told.
#[derive(Clone, Copy, Debug, PartialEq, Eq, Structural)]
pub enum WorkerEvent {
    /// The worker may begin.
    Start,
    /// The archive returned `len` bytes for the path last asked for.
    Found { len: usize },
    /// The archive holds no entry for the path last asked for.
    NotFound,
    /// The bytes were written to the path last named.
    Written,
    /// Creating the directory or writing the file failed.
    WriteFailed,
}

/// What a worker asks for.
#[derive(Debug, PartialEq, Eq)]
pub enum WorkerAction {
    /// Nothing yet: the worker waits to be started.
    AwaitStart,
    /// Look this virtual path up in the archive.
    Read { path: String },
    /// Create the missing directories of this local path, then write the
    /// bytes last read to it.
    Write { path: String },
    /// Nothing more: the worker is done.
    Finish,
}

/// A `WorkerAction` with its paths as plain character sequences.
pub enum ActionModel {
    AwaitStart,
    Read { path: Seq<char> },
    Write { path: Seq<char> },
    Finish,
}

impl View for WorkerAction {
    type V = ActionModel;

    open spec fn view(&self) -> ActionModel {
        match self {
            WorkerAction::AwaitStart => ActionModel::AwaitStart,
            WorkerAction::Read { path } => ActionModel::Read { path: path@ },
            WorkerAction::Write { path } => ActionModel::Write { path: path@ },
            WorkerAction::Finish => ActionModel::Finish,
        }
    }
}

/// The number of `Extracted` outcomes among `outcomes`.
pub open spec fn count_extracted(outcomes: Seq<ExtractionOutcome>) -> nat {
    outcomes.filter(|outcome: ExtractionOutcome| outcome is Extracted).len()
}

/// The number of `NotFound` outcomes among `outcomes`.
pub open spec fn count_not_found(outcomes: Seq<ExtractionOutcome>) -> nat {
    outcomes.filter(|outcome: ExtractionOutcome| outcome is NotFound).len()
}

/// How the counts change when one more outcome is recorded, and that
/// together they never exceed the number of outcomes.
pub proof fn lemma_counts_push(outcomes: Seq<ExtractionOutcome>, outcome: ExtractionOutcome)
    ensures
        count_extracted(outcomes.push(outcome)) == count_extracted(outcomes) + if outcome
            is Extracted {
            1nat
        } else {
            0nat
        },
        count_not_found(outcomes.push(outcome)) == count_not_found(outcomes) + if outcome
            is NotFound {
            1nat
        } else {
            0nat
        },
        count_extracted(outcomes) <= outcomes.len(),
        count_not_found(outcomes) <= outcomes.len(),
{
    let extracted = |outcome: ExtractionOutcome| outcome is Extracted;
    let not_found = |outcome: ExtractionOutcome| outcome is NotFound;
    outcomes.lemma_filter_push(outcome, extracted);
    outcomes.lemma_filter_push(outcome, not_found);
    outcomes.lemma_filter_len(extracted);
    outcomes.lemma_filter_len(not_found);
}

/// The mathematical model of a worker: its chunk, the output root, the
/// outcomes of the paths it has dealt with so far, in order, and its stage.
pub struct WorkerModel {
    pub paths: Seq<Seq<char>>,
    pub root: Seq<char>,
    pub outcomes: Seq<ExtractionOutcome>,
    pub stage: Stage,
}

impl WorkerModel {
    /// A worker that has not been started.
    pub open spec fn initial(paths: Seq<Seq<char>>, root: Seq<char>) -> WorkerModel {
        WorkerModel { paths, root, outcomes: Seq::empty(), stage: Stage::Idle }
    }

    /// Whether a write has failed.
    pub open spec fn failed(self) -> bool {
        self.outcomes.len() > 0 && self.outcomes.last() is WriteFailed
    }

    /// The states a worker can be in: one outcome per path dealt with, a
    /// failed write only as the very last outcome, and a stage that fits.
    pub open spec fn wf(self) -> bool {
        &&& self.outcomes.len() <= self.paths.len()
        &&& forall|i: int| 0 <= i < self.outcomes.len() - 1 ==> !(self.outcomes[i] is WriteFailed)
        &&& match self.stage {
            Stage::Idle => self.outcomes.len() == 0,
            Stage::Reading | Stage::Writing { .. } => {
                self.outcomes.len() < self.paths.len() && !self.failed()
            },
            Stage::Done => self.failed() || self.outcomes.len() == self.paths.len(),
        }
    }

    /// The coarse phase that the stage belongs to.
    pub open spec fn phase(self) -> WorkerPhase {
        match self.stage {
            Stage::Idle => WorkerPhase::Idle,
            Stage::Reading | Stage::Writing { .. } => WorkerPhase::Running,
            Stage::Done => WorkerPhase::Done,
        }
    }

    /// The state after the current path got its outcome. A failed write ends
    /// the worker; otherwise it goes on to the next path, if there is one.
    pub open spec fn conclude(self, outcome: ExtractionOutcome) -> WorkerModel {
        let outcomes = self.outcomes.push(outcome);
        let stage = if outcome is WriteFailed || outcomes.len() >= self.paths.len() {
            Stage::Done
        } else {
            Stage::Reading
        };
        WorkerModel { outcomes, stage, ..self }
    }

    /// The transition function. An event that does not answer what the
    /// worker is waiting for leaves the worker as it is.
    pub open spec fn step(self, event: WorkerEvent) -> WorkerModel {
        match (self.stage, event) {
            (Stage::Idle, WorkerEvent::Start) => WorkerModel {
                stage: if self.paths.len() == 0 {
                    Stage::Done
                } else {
                    Stage::Reading
                },
                ..self
            },
            (Stage::Reading, WorkerEvent::Found { len }) => WorkerModel {
                stage: Stage::Writing { len },
                ..self
            },
            (Stage::Reading, WorkerEvent::NotFound) => self.conclude(ExtractionOutcome::NotFound),
            (Stage::Writing { len }, WorkerEvent::Written) => self.conclude(
                ExtractionOutcome::Extracted(len),
            ),
            (Stage::Writing { .. }, WorkerEvent::WriteFailed) => self.conclude(
                ExtractionOutcome::WriteFailed,
            ),
            _ => self,
        }
    }

    /// Whether `event` completes the extraction of the current path.
    pub open spec fn extracts(self, event: WorkerEvent) -> bool {
        self.stage is Writing && event is Written
    }

    /// What the worker is waiting for in its current state.
    pub open spec fn pending(self) -> ActionModel {
        match self.stage {
            Stage::Idle => ActionModel::AwaitStart,
            Stage::Reading => ActionModel::Read { path: self.paths[self.outcomes.len() as int] },
            Stage::Writing { .. } => ActionModel::Write {
                path: output_path_spec(self.root, self.paths[self.outcomes.len() as int]),
            },
            Stage::Done => ActionModel::Finish,
        }
    }

    /// The state reached from `self` by a sequence of events.
    pub open spec fn run(self, events: Seq<WorkerEvent>) -> WorkerModel
        decreases events.len(),
    {
        if events.len() == 0 {
            self
        } else {
            self.run(events.drop_last()).step(events.last())
        }
    }

    /// The number of archive lookups that succeeded while the worker went
    /// through `events`: the `Found` events that answered a `Read`.
    pub open spec fn lookups_succeeded(self, events: Seq<WorkerEvent>) -> nat
        decreases events.len(),
    {
        if events.len() == 0 {
            0
        } else {
            let before = self.run(events.drop_last());
            self.lookups_succeeded(events.drop_last()) + if before.stage is Reading
                && events.last() is Found {
                1nat
            } else {
                0nat
            }
        }
    }

    /// Every step leads from a well-formed state to a well-formed state.
    pub proof fn lemma_step_preserves_wf(self, event: WorkerEvent)
        requires
            self.wf(),
        ensures
            self.step(event).wf(),
    {
    }

    /// What a single step can and cannot do.
    ///
    /// The chunk and the root never change. The outcomes only grow, by at
    /// most one per step. The number of extracted paths goes up by exactly
    /// one when a write is confirmed and stays as it is on every other event.
    /// A path that is not found is skipped without failing the worker, a
    /// failed write ends it, and a worker that is done stays as it is.
    pub proof fn lemma_step_effect(self, event: WorkerEvent)
        requires
            self.wf(),
        ensures
            self.step(event).paths == self.paths,
            self.step(event).root == self.root,
            self.step(event).outcomes == self.outcomes || self.step(event).outcomes.drop_last()
                == self.outcomes,
            count_extracted(self.step(event).outcomes) == count_extracted(self.outcomes)
                + if self.extracts(event) {
                1nat
            } else {
                0nat
            },
            self.stage is Reading && event is NotFound ==> {
                &&& !self.step(event).failed()
                &&& self.step(event).outcomes == self.outcomes.push(ExtractionOutcome::NotFound)
                &&& self.step(event).stage == if self.outcomes.len() + 1 == self.paths.len() {
                    Stage::Done
                } else {
                    Stage::Reading
                }
            },
            self.stage is Writing && event is WriteFailed ==> {
                &&& self.step(event).failed()
                &&& self.step(event).stage is Done
            },
            self.step(event).failed() ==> self.step(event).stage is Done,
            self.stage is Done ==> self.step(event) == self,
    {
        let next = self.step(event);
        if next.outcomes != self.outcomes {
            let outcome = next.outcomes.last();
            assert(next.outcomes == self.outcomes.push(outcome));
            assert(next.outcomes.drop_last() =~= self.outcomes);
            lemma_counts_push(self.outcomes, outcome);
        }
    }

    /// A worker started from its initial state is well formed whatever
    /// events it is fed, and its count of extracted paths is the number of
    /// lookups that succeeded, less the one whose write is still awaited or
    /// has failed.
    pub proof fn lemma_run_counts_lookups(
        paths: Seq<Seq<char>>,
        root: Seq<char>,
        events: Seq<WorkerEvent>,
    )
        ensures
            Self::initial(paths, root).run(events).wf(),
            Self::initial(paths, root).run(events).paths == paths,
            Self::initial(paths, root).lookups_succeeded(events) == count_extracted(
                Self::initial(paths, root).run(events).outcomes,
            ) + if Self::initial(paths, root).run(events).stage is Writing || Self::initial(
                paths,
                root,
            ).run(events).failed() {
                1nat
            } else {
                0nat
            },
        decreases events.len(),
    {
        let start = Self::initial(paths, root);
        if events.len() == 0 {
            assert(count_extracted(start.outcomes) == 0) by {
                reveal(Seq::filter);
            }
        } else {
            Self::lemma_run_counts_lookups(paths, root, events.drop_last());
            let before = start.run(events.drop_last());
            before.lemma_step_preserves_wf(events.last());
            before.lemma_step_effect(events.last());
        }
    }

    /// A worker that is done without a failed write has dealt with every path
    /// of its chunk, and has extracted exactly those whose lookup succeeded.
    pub proof fn lemma_full_run(paths: Seq<Seq<char>>, root: Seq<char>, events: Seq<WorkerEvent>)
        requires
            Self::initial(paths, root).run(events).stage is Done,
            !Self::initial(paths, root).run(events).failed(),
        ensures
            Self::initial(paths, root).run(events).outcomes.len() == paths.len(),
            count_extracted(Self::initial(paths, root).run(events).outcomes) == Self::initial(
                paths,
                root,
            ).lookups_succeeded(events),
    {
        Self::lemma_run_counts_lookups(paths, root, events);
    }
}

/// One worker: its chunk of the manifest, the output root, and how far it
/// has come.
pub struct Worker {
    paths: Vec<String>,
    root: String,
    stage: Stage,
    cursor: usize,
    extracted: usize,
    skipped: usize,
    failed: bool,
    outcomes: Ghost<Seq<ExtractionOutcome>>,
}

impl View for Worker {
    type V = WorkerModel;

    closed spec fn view(&self) -> WorkerModel {
        WorkerModel {
            paths: self.paths.deep_view(),
            root: self.root@,
            outcomes: self.outcomes@,
            stage: self.stage,
        }
    }
}

impl Worker {
    /// The representation invariant: the model is a state a worker can be
    /// in, and the counters agree with the outcomes so far.
    pub closed spec fn wf(&self) -> bool {
        &&& self@.wf()
        &&& self.cursor == self.outcomes@.len()
        &&& self.extracted == count_extracted(self.outcomes@)
        &&& self.skipped == count_not_found(self.outcomes@)
        &&& self.failed == self@.failed()
    }

    /// A well-formed worker is in a state that its model allows.
    pub proof fn lemma_wf(&self)
        requires
            self.wf(),
        ensures
            self@.wf(),
    {
    }

    /// A worker for the chunk `paths`, writing under `root`, not yet started.
    pub fn new(paths: Vec<String>, root: String) -> (worker: Worker)
        ensures
            worker.wf(),
            worker@ == WorkerModel::initial(paths.deep_view(), root@),
    {
        proof {
            reveal(Seq::filter);
        }
        Worker {
            paths,
            root,
            stage: Stage::Idle,
            cursor: 0,
            extracted: 0,
            skipped: 0,
            failed: false,
            outcomes: Ghost(Seq::empty()),
        }
    }

    /// The phase the worker is in.
    pub fn phase(&self) -> (phase: WorkerPhase)
        ensures
            phase == self@.phase(),
    {
        match self.stage {
            Stage::Idle => WorkerPhase::Idle,
            Stage::Reading => WorkerPhase::Running,
            Stage::Writing { .. } => WorkerPhase::Running,
            Stage::Done => WorkerPhase::Done,
        }
    }

    /// The number of paths extracted so far.
    pub fn extracted(&self) -> (n: usize)
        requires
            self.wf(),
        ensures
            n == count_extracted(self@.outcomes),
    {
        self.extracted
    }

    /// The number of paths skipped so far because the archive does not hold
    /// them.
    pub fn skipped(&self) -> (n: usize)
        requires
            self.wf(),
        ensures
            n == count_not_found(self@.outcomes),
    {
        self.skipped
    }

    /// Whether a write has failed, which has ended the worker.
    pub fn failed(&self) -> (failed: bool)
        requires
            self.wf(),
        ensures
            failed == self@.failed(),
    {
        self.failed
    }

    /// What the worker has to show for itself so far.
    pub fn report(&self) -> (report: WorkerReport)
        requires
            self.wf(),
        ensures
            report.extracted == count_extracted(self@.outcomes),
            report.skipped == count_not_found(self@.outcomes),
            report.failed == self@.failed(),
    {
        WorkerReport { extracted: self.extracted, skipped: self.skipped, failed: self.failed }
    }

    /// What the worker is waiting for.
    pub fn pending(&self) -> (action: WorkerAction)
        requires
            self.wf(),
        ensures
            action@ == self@.pending(),
    {
        match self.stage {
            Stage::Idle => WorkerAction::AwaitStart,
            Stage::Reading => WorkerAction::Read { path: self.paths[self.cursor].clone() },
            Stage::Writing { .. } => WorkerAction::Write {
                path: output_path(self.root.as_str(), self.paths[self.cursor].as_str()),
            },
            Stage::Done => WorkerAction::Finish,
        }
    }

    /// Records the outcome of the current path and moves on.
    fn conclude(&mut self, outcome: ExtractionOutcome)
        requires
            old(self).wf(),
            old(self)@.stage is Reading || old(self)@.stage is Writing,
        ensures
            final(self).wf(),
            final(self)@ == old(self)@.conclude(outcome),
    {
        proof {
            lemma_counts_push(self.outcomes@, outcome);
            assert(self.cursor < self.paths.len());
        }
        match outcome {
            ExtractionOutcome::Extracted(_) => {
                self.extracted += 1;
            },
            ExtractionOutcome::NotFound => {
                self.skipped += 1;
            },
            ExtractionOutcome::WriteFailed => {
                self.failed = true;
            },
        }
        self.cursor += 1;
        self.outcomes = Ghost(self.outcomes@.push(outcome));
        self.stage = match outcome {
            ExtractionOutcome::WriteFailed => Stage::Done,
            _ => if self.cursor >= self.paths.len() {
                Stage::Done
            } else {
                Stage::Reading
            },
        };
    }

    /// Tells the worker what happened and returns what it asks for next.
    ///
    /// The worker follows `WorkerModel::step`: `Start` sets an idle worker
    /// going; `Found` and `NotFound` answer a `Read`; `Written` and
    /// `WriteFailed` answer a `Write`. Any other event is ignored, and the
    /// worker repeats what it is waiting for.
    pub fn step(&mut self, event: WorkerEvent) -> (action: WorkerAction)
        requires
            old(self).wf(),
        ensures
            final(self).wf(),
            final(self)@ == old(self)@.step(event),
            action@ == final(self)@.pending(),
    {
        match (self.stage, event) {
            (Stage::Idle, WorkerEvent::Start) => {
                self.stage = if self.paths.len() == 0 {
                    Stage::Done
                } else {
                    Stage::Reading
                };
            },
            (Stage::Reading, WorkerEvent::Found { len }) => {
                self.stage = Stage::Writing { len };
            },
            (Stage::Reading, WorkerEvent::NotFound) => {
                self.conclude(ExtractionOutcome::NotFound);
            },
            (Stage::Writing { len }, WorkerEvent::Written) => {
                self.conclude(ExtractionOutcome::Extracted(len));
            },
            (Stage::Writing { .. }, WorkerEvent::WriteFailed) => {
                self.conclude(ExtractionOutcome::WriteFailed);
            },
            _ => {},
        }
        self.pending()
    }

    /// Like `step`, and keeps the shared progress counter up to date: the
    /// counter is advanced once, and only, when the event completes the
    /// extraction of a path. Returns the next action together with the
    /// progress report that is due, if one is.
    pub fn step_counted(&mut self, event: WorkerEvent, progress: &mut ProgressCounter) -> (next: (
        WorkerAction,
        Option<ProgressReport>,
    ))
        requires
            old(self).wf(),
            old(progress).wf(),
        ensures
            final(self).wf(),
            final(self)@ == old(self)@.step(event),
            next.0@ == final(self)@.pending(),
            final(progress).wf(),
            final(progress)@ == if old(self)@.extracts(event) {
                old(progress)@.record()
            } else {
                old(progress)@
            },
            next.1 == if old(self)@.extracts(event) {
                old(progress)@.report_on_record()
            } else {
                None
            },
    {
        let extracts = match (self.stage, event) {
            (Stage::Writing { .. }, WorkerEvent::Written) => true,
            _ => false,
        };
        let action = self.step(event);
        let report = if extracts {
            progress.record_extracted()
        } else {
            None
        };
        (action, report)
    }
}

} // verus!
