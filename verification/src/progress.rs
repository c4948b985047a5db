//! The progress aggregator: the count of extracted files that all workers
//! feed, and the decision when to report it.
//!
//! The counter starts at zero, goes up by one for every extracted file, never
//! goes down, and never exceeds the number of manifest entries. Every time it
//! reaches a multiple of `REPORT_INTERVAL` the caller is handed a report to
//! print. Recording takes the counter by exclusive reference, so workers that
//! share one counter necessarily take turns, and no increment is lost or
//! applied twice.

use vstd::prelude::*;

verus! {

/// A progress line is due whenever the count reaches a multiple of this.
pub const REPORT_INTERVAL: usize = 1000;

/// A progress report: `completed` files extracted out of `total` manifest
/// entries.
#[derive(Clone, Copy, Debug, PartialEq, Eq, Structural)]
pub struct ProgressReport {
    pub completed: usize,
    pub total: usize,
}

/// The mathematical model of a progress counter.
pub struct ProgressModel {
    pub completed: nat,
    pub total: nat,
}

impl ProgressModel {
    /// The counter at the start of a run over `total` manifest entries.
    pub open spec fn initial(total: nat) -> ProgressModel {
        ProgressModel { completed: 0, total }
    }

    /// The states a counter can be in.
    pub open spec fn wf(self) -> bool {
        self.completed <= self.total <= usize::MAX
    }

    /// The counter after one more extracted file. A counter that already
    /// stands at the number of manifest entries stays there.
    pub open spec fn record(self) -> ProgressModel {
        if self.completed < self.total {
            ProgressModel { completed: self.completed + 1, ..self }
        } else {
            self
        }
    }

    /// The report that recording one more extracted file calls for: one is
    /// due when the count moves onto a multiple of `REPORT_INTERVAL`.
    pub open spec fn report_on_record(self) -> Option<ProgressReport> {
        if self.completed < self.total && (self.completed + 1) % (REPORT_INTERVAL as nat) == 0 {
            Some(
                ProgressReport {
                    completed: (self.completed + 1) as usize,
                    total: self.total as usize,
                },
            )
        } else {
            None
        }
    }

    /// The counter after `times` more extracted files.
    pub open spec fn record_times(self, times: nat) -> ProgressModel
        decreases times,
    {
        if times == 0 {
            self
        } else {
            self.record_times((times - 1) as nat).record()
        }
    }

    /// Recording never lowers the count, never changes the total, and counts
    /// every extracted file exactly once for as long as the count stays
    /// within the number of manifest entries.
    pub proof fn lemma_record_times(self, times: nat)
        requires
            self.wf(),
        ensures
            self.record_times(times).wf(),
            self.record_times(times).total == self.total,
            self.record_times(times).completed >= self.completed,
            self.record_times(times).completed == if self.completed + times <= self.total {
                self.completed + times
            } else {
                self.total
            },
        decreases times,
    {
        if times > 0 {
            self.lemma_record_times((times - 1) as nat);
        }
    }
}

/// The count of extracted files of one run.
#[derive(Debug)]
pub struct ProgressCounter {
    completed: usize,
    total: usize,
}

impl View for ProgressCounter {
    type V = ProgressModel;

    closed spec fn view(&self) -> ProgressModel {
        ProgressModel { completed: self.completed as nat, total: self.total as nat }
    }
}

impl ProgressCounter {
    /// The representation invariant: the count never exceeds the number of
    /// manifest entries.
    pub closed spec fn wf(&self) -> bool {
        self@.wf()
    }

    /// A well-formed counter has a well-formed model.
    pub proof fn lemma_wf(&self)
        requires
            self.wf(),
        ensures
            self@.wf(),
    {
    }

    /// A counter at zero for a run over `total` manifest entries.
    pub fn new(total: usize) -> (counter: ProgressCounter)
        ensures
            counter.wf(),
            counter@ == ProgressModel::initial(total as nat),
    {
        ProgressCounter { completed: 0, total }
    }

    /// The number of files extracted so far.
    pub fn completed(&self) -> (n: usize)
        ensures
            n == self@.completed,
    {
        self.completed
    }

    /// The number of manifest entries of the run.
    pub fn total(&self) -> (n: usize)
        ensures
            n == self@.total,
    {
        self.total
    }

    /// The current state as a report.
    pub fn report(&self) -> (report: ProgressReport)
        ensures
            report.completed == self@.completed,
            report.total == self@.total,
    {
        ProgressReport { completed: self.completed, total: self.total }
    }

    /// Counts one extracted file. Returns the report to print if the count
    /// has reached a multiple of `REPORT_INTERVAL`.
    ///
    /// A counter that already stands at the number of manifest entries stays
    /// there: more files than entries cannot have been extracted.
    pub fn record_extracted(&mut self) -> (report: Option<ProgressReport>)
        requires
            old(self).wf(),
        ensures
            final(self).wf(),
            final(self)@ == old(self)@.record(),
            report == old(self)@.report_on_record(),
    {
        if self.completed < self.total {
            self.completed += 1;
            if self.completed % REPORT_INTERVAL == 0 {
                return Some(self.report());
            }
        }
        None
    }
}

} // verus!
