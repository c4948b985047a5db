//! The coordinator's bookkeeping: what a run amounts to once every worker
//! has finished.
//!
//! The coordinator fetches the manifest, partitions it, lets one worker loose
//! on every chunk and waits for all of them. A failed write ends only the
//! worker that met it; the others finish their chunks. The run as a whole
//! fails if the manifest could not be had or if any worker reports a failed
//! write, and succeeds otherwise.

use crate::manifest::ManifestFetchError;
use crate::partition::{
    chunk_end, chunk_start, effective_workers_spec, lemma_chunk_bounds, partition_spec,
};
use crate::progress::ProgressModel;
use crate::worker::{count_extracted, ExtractionOutcome, WorkerReport};
use vstd::prelude::*;

verus! {

/// Why a run failed.
#[derive(Clone, Copy, Debug, PartialEq, Eq, Structural)]
pub enum RunError {
    /// The manifest could not be obtained; no worker was started.
    Manifest(ManifestFetchError),
    /// A write failed. `worker` is the first worker, in chunk order, that
    /// reports one.
    WriteFailed { worker: usize },
}

/// The sum of the workers' extracted counts.
pub open spec fn total_extracted(reports: Seq<WorkerReport>) -> nat
    decreases reports.len(),
{
    if reports.len() == 0 {
        0
    } else {
        total_extracted(reports.drop_last()) + reports.last().extracted as nat
    }
}

/// The first worker that reports a failed write, if any does.
pub open spec fn first_failed(reports: Seq<WorkerReport>) -> Option<int>
    decreases reports.len(),
{
    if reports.len() == 0 {
        None
    } else {
        match first_failed(reports.drop_last()) {
            Some(worker) => Some(worker),
            None => if reports.last().failed {
                Some(reports.len() - 1)
            } else {
                None
            },
        }
    }
}

/// The result of a run, given the reports of all its workers: the number of
/// files extracted (capped at what a `usize` holds), or the first failure.
pub open spec fn conclusion(reports: Seq<WorkerReport>) -> Result<usize, RunError> {
    match first_failed(reports) {
        Some(worker) => Err(RunError::WriteFailed { worker: worker as usize }),
        None => Ok(
            if total_extracted(reports) <= usize::MAX {
                total_extracted(reports) as usize
            } else {
                usize::MAX
            },
        ),
    }
}

/// The exit code that stands for a result: zero for success, one for failure.
pub open spec fn exit_code_spec(result: Result<usize, RunError>) -> u8 {
    if result is Ok {
        0
    } else {
        1
    }
}

/// `first_failed` finds a failed worker exactly when there is one, and then
/// it is the first.
pub proof fn lemma_first_failed(reports: Seq<WorkerReport>)
    ensures
        match first_failed(reports) {
            Some(worker) => {
                &&& 0 <= worker < reports.len()
                &&& reports[worker].failed
                &&& forall|j: int| 0 <= j < worker ==> !(#[trigger] reports[j]).failed
            },
            None => forall|j: int| 0 <= j < reports.len() ==> !(#[trigger] reports[j]).failed,
        },
    decreases reports.len(),
{
    if reports.len() > 0 {
        let earlier = reports.drop_last();
        lemma_first_failed(earlier);
        assert(forall|j: int| 0 <= j < earlier.len() ==> earlier[j] == reports[j]);
    }
}

/// A run succeeds exactly when no worker reports a failed write, and only a
/// successful run exits with code zero.
pub proof fn lemma_success_means_no_failure(reports: Seq<WorkerReport>)
    ensures
        conclusion(reports) is Ok <==> forall|j: int|
            0 <= j < reports.len() ==> !(#[trigger] reports[j]).failed,
        exit_code_spec(conclusion(reports)) == 0 <==> conclusion(reports) is Ok,
{
    lemma_first_failed(reports);
}

/// However many workers share the manifest, their extracted counts add up to
/// the number of manifest entries that were extracted.
///
/// `outcomes` holds the outcome of every manifest entry, in manifest order;
/// worker `k` deals with chunk `k` of the manifest, so the outcomes it sees
/// are chunk `k` of `outcomes`.
pub proof fn lemma_counts_add_up(
    outcomes: Seq<ExtractionOutcome>,
    workers: nat,
    reports: Seq<WorkerReport>,
)
    requires
        workers >= 1,
        reports.len() == partition_spec(outcomes, workers).len(),
        forall|k: int|
            0 <= k < reports.len() ==> (#[trigger] reports[k]).extracted == count_extracted(
                partition_spec(outcomes, workers)[k],
            ),
    ensures
        total_extracted(reports) == count_extracted(outcomes),
        total_extracted(reports) <= outcomes.len(),
{
    let n = effective_workers_spec(outcomes.len(), workers);
    lemma_prefix_counts_add_up(outcomes, workers, reports, n);
    lemma_chunk_bounds(outcomes.len(), workers, (n - 1) as nat);
    assert(reports.take(n as int) =~= reports);
    assert(outcomes.take(outcomes.len() as int) =~= outcomes);
    outcomes.lemma_filter_len(|outcome: ExtractionOutcome| outcome is Extracted);
}

/// After a run in which every extracted file was recorded once, the progress
/// counter stands at the number of manifest entries that were extracted,
/// however many workers shared the manifest and in whatever order they took
/// their turns at the counter.
///
/// Where no write fails, an entry is extracted exactly when its lookup in the
/// archive succeeds, so the counter then stands at the number of successful
/// lookups.
pub proof fn lemma_progress_counts_extracted(
    outcomes: Seq<ExtractionOutcome>,
    workers: nat,
    reports: Seq<WorkerReport>,
)
    requires
        workers >= 1,
        outcomes.len() <= usize::MAX,
        reports.len() == partition_spec(outcomes, workers).len(),
        forall|k: int|
            0 <= k < reports.len() ==> (#[trigger] reports[k]).extracted == count_extracted(
                partition_spec(outcomes, workers)[k],
            ),
    ensures
        ProgressModel::initial(outcomes.len()).record_times(total_extracted(reports)).completed
            == count_extracted(outcomes),
        first_failed(reports) is None ==> conclusion(reports) == Ok::<usize, RunError>(
            count_extracted(outcomes) as usize,
        ),
{
    lemma_counts_add_up(outcomes, workers, reports);
    ProgressModel::initial(outcomes.len()).lemma_record_times(total_extracted(reports));
}

/// The extracted counts of the first `count` workers add up to the number of
/// extracted entries in the part of the manifest that their chunks cover.
proof fn lemma_prefix_counts_add_up(
    outcomes: Seq<ExtractionOutcome>,
    workers: nat,
    reports: Seq<WorkerReport>,
    count: nat,
)
    requires
        workers >= 1,
        count <= effective_workers_spec(outcomes.len(), workers),
        reports.len() == partition_spec(outcomes, workers).len(),
        forall|k: int|
            0 <= k < reports.len() ==> (#[trigger] reports[k]).extracted == count_extracted(
                partition_spec(outcomes, workers)[k],
            ),
    ensures
        total_extracted(reports.take(count as int)) == count_extracted(
            outcomes.take(
                if count == 0 {
                    0
                } else {
                    chunk_end(outcomes.len(), workers, (count - 1) as nat) as int
                },
            ),
        ),
    decreases count,
{
    let total = outcomes.len();
    let extracted = |outcome: ExtractionOutcome| outcome is Extracted;
    if count == 0 {
        assert(reports.take(0) =~= Seq::<WorkerReport>::empty());
        assert(outcomes.take(0) =~= Seq::<ExtractionOutcome>::empty());
        assert(count_extracted(Seq::<ExtractionOutcome>::empty()) == 0) by {
            reveal(Seq::filter);
        }
    } else {
        let k = (count - 1) as nat;
        lemma_prefix_counts_add_up(outcomes, workers, reports, k);
        lemma_chunk_bounds(total, workers, k);
        if k > 0 {
            lemma_chunk_bounds(total, workers, (k - 1) as nat);
        }
        let start = chunk_start(total, workers, k) as int;
        let end = chunk_end(total, workers, k) as int;
        let chunk = outcomes.subrange(start, end);
        assert(partition_spec(outcomes, workers)[k as int] == chunk);
        assert(reports.take(count as int).drop_last() =~= reports.take(k as int));
        assert(reports.take(count as int).last() == reports[k as int]);
        assert(outcomes.take(start) + chunk =~= outcomes.take(end));
        Seq::filter_distributes_over_add(outcomes.take(start), chunk, extracted);
    }
}

/// Draws the conclusion of a run from the reports of its workers, given in
/// chunk order.
pub fn conclude(reports: &Vec<WorkerReport>) -> (result: Result<usize, RunError>)
    ensures
        result == conclusion(reports@),
{
    let mut extracted: usize = 0;
    let mut failed: Option<usize> = None;
    let mut k: usize = 0;
    while k < reports.len()
        invariant
            k <= reports.len(),
            extracted == if total_extracted(reports@.take(k as int)) <= usize::MAX {
                total_extracted(reports@.take(k as int))
            } else {
                usize::MAX as nat
            },
            match failed {
                Some(worker) => first_failed(reports@.take(k as int)) == Some(worker as int),
                None => first_failed(reports@.take(k as int)) is None,
            },
        decreases reports.len() - k,
    {
        assert(reports@.take(k + 1).drop_last() =~= reports@.take(k as int));
        extracted = extracted.saturating_add(reports[k].extracted);
        if failed.is_none() && reports[k].failed {
            failed = Some(k);
        }
        k += 1;
    }
    assert(reports@.take(k as int) =~= reports@);
    match failed {
        Some(worker) => Err(RunError::WriteFailed { worker }),
        None => Ok(extracted),
    }
}

/// The process exit code for the result of a run: zero on full success,
/// one if the manifest could not be had or a write failed.
pub fn exit_code(result: &Result<usize, RunError>) -> (code: u8)
    ensures
        code == exit_code_spec(*result),
{
    match result {
        Ok(_) => 0,
        Err(_) => 1,
    }
}

} // verus!
