//! The work partitioner: splitting a manifest into contiguous chunks, one per
//! worker.
//!
//! A manifest of `total` entries is shared out among `workers` workers in
//! blocks of `total / workers` consecutive entries; the last block also takes
//! whatever the division leaves over. Where more workers are asked for than
//! there are entries, the worker count is clamped to the number of entries
//! (and to one for an empty manifest), so no block size is ever computed by
//! dividing by zero and no worker is started without work to do.

use vstd::prelude::*;

verus! {

/// A contiguous block of manifest entries: those at positions `start..end`.
#[derive(Clone, Copy, Debug, PartialEq, Eq, Structural)]
pub struct WorkChunk {
    pub start: usize,
    pub end: usize,
}

impl WorkChunk {
    /// The number of entries in the chunk.
    pub open spec fn size(self) -> int {
        self.end - self.start
    }

    /// Whether the manifest position `index` belongs to the chunk.
    pub open spec fn contains(self, index: int) -> bool {
        self.start <= index < self.end
    }

    /// The number of entries in the chunk.
    pub fn len(&self) -> (n: usize)
        requires
            self.start <= self.end,
        ensures
            n == self.size(),
    {
        self.end - self.start
    }
}

/// The number of workers that receive a chunk: `min(workers, max(total, 1))`.
pub open spec fn effective_workers_spec(total: nat, workers: nat) -> nat {
    if total == 0 {
        1
    } else if workers < total {
        workers
    } else {
        total
    }
}

/// The number of entries in every chunk but the last.
pub open spec fn chunk_size(total: nat, workers: nat) -> nat {
    total / effective_workers_spec(total, workers)
}

/// The manifest position at which chunk `k` starts.
pub open spec fn chunk_start(total: nat, workers: nat, k: nat) -> nat {
    k * chunk_size(total, workers)
}

/// The manifest position at which chunk `k` ends: where the next chunk
/// starts, or at the end of the manifest for the last chunk.
pub open spec fn chunk_end(total: nat, workers: nat, k: nat) -> nat {
    if k + 1 == effective_workers_spec(total, workers) {
        total
    } else {
        (k + 1) * chunk_size(total, workers)
    }
}

/// The chunks into which a manifest of `total` entries is split for
/// `workers` workers, in assignment order.
pub open spec fn chunk_plan(total: nat, workers: nat) -> Seq<WorkChunk> {
    Seq::new(
        effective_workers_spec(total, workers),
        |k: int|
            WorkChunk {
                start: chunk_start(total, workers, k as nat) as usize,
                end: chunk_end(total, workers, k as nat) as usize,
            },
    )
}

/// The chunks of `manifest` itself, in assignment order.
pub open spec fn partition_spec<T>(manifest: Seq<T>, workers: nat) -> Seq<Seq<T>> {
    Seq::new(
        effective_workers_spec(manifest.len(), workers),
        |k: int|
            manifest.subrange(
                chunk_start(manifest.len(), workers, k as nat) as int,
                chunk_end(manifest.len(), workers, k as nat) as int,
            ),
    )
}

/// The entries of each chunk of a partitioned manifest.
pub open spec fn chunk_views(chunks: Seq<Vec<String>>) -> Seq<Seq<String>> {
    chunks.map_values(|chunk: Vec<String>| chunk@)
}

/// No manifest position belongs to two different chunks.
pub open spec fn pairwise_disjoint(chunks: Seq<WorkChunk>) -> bool {
    forall|i: int, j: int, index: int|
        0 <= i < chunks.len() && 0 <= j < chunks.len() && #[trigger] chunks[i].contains(index)
            && #[trigger] chunks[j].contains(index) ==> i == j
}

/// Some chunk holds the manifest position `index`.
pub open spec fn covered(chunks: Seq<WorkChunk>, index: int) -> bool {
    exists|k: int| 0 <= k < chunks.len() && #[trigger] chunks[k].contains(index)
}

/// The number of chunks in `chunks` that hold at least one entry.
pub open spec fn non_empty_chunks(chunks: Seq<WorkChunk>) -> nat {
    chunks.filter(|chunk: WorkChunk| chunk.start < chunk.end).len()
}

/// Every chunk lies within the manifest, starts where its predecessor ends,
/// and all chunks but the last hold exactly `chunk_size` entries. The last
/// chunk holds at least that many, and fewer than `workers` more.
pub proof fn lemma_chunk_bounds(total: nat, workers: nat, k: nat)
    requires
        workers >= 1,
        k < effective_workers_spec(total, workers),
    ensures
        chunk_start(total, workers, k) <= chunk_end(total, workers, k) <= total,
        k + 1 < effective_workers_spec(total, workers) ==> {
            &&& chunk_end(total, workers, k) == chunk_start(total, workers, k + 1)
            &&& chunk_end(total, workers, k) - chunk_start(total, workers, k) == chunk_size(
                total,
                workers,
            )
        },
        k + 1 == effective_workers_spec(total, workers) ==> {
            &&& chunk_end(total, workers, k) == total
            &&& chunk_size(total, workers) <= total - chunk_start(total, workers, k)
            &&& total - chunk_start(total, workers, k) < chunk_size(total, workers) + workers
        },
        k == 0 ==> chunk_start(total, workers, k) == 0,
{
    let n = effective_workers_spec(total, workers) as int;
    let size = chunk_size(total, workers) as int;
    let t = total as int;
    let k = k as int;
    assert(t == n * size + t % n && 0 <= t % n < n) by (nonlinear_arith)
        requires
            n >= 1,
            t >= 0,
            size == t / n,
    ;
    assert(k * size <= (k + 1) * size <= n * size && (k + 1) * size - k * size == size) by (
        nonlinear_arith)
        requires
            0 <= k < n,
            size >= 0,
    ;
    assert(k + 1 == n ==> n * size - k * size == size) by (nonlinear_arith);
}

/// Chunks are laid out in assignment order without overlap: an earlier chunk
/// ends before a later one starts.
pub proof fn lemma_chunks_ordered(total: nat, workers: nat, i: nat, j: nat)
    requires
        workers >= 1,
        i < j < effective_workers_spec(total, workers),
    ensures
        chunk_end(total, workers, i) <= chunk_start(total, workers, j),
{
    let size = chunk_size(total, workers) as int;
    let i = i as int;
    let j = j as int;
    assert((i + 1) * size <= j * size) by (nonlinear_arith)
        requires
            0 <= i < j,
            size >= 0,
    ;
}

/// The chunks are pairwise disjoint and together cover the manifest: every
/// manifest position belongs to exactly one chunk.
pub proof fn lemma_chunks_cover_exactly_once(total: nat, workers: nat)
    requires
        workers >= 1,
        total <= usize::MAX,
    ensures
        pairwise_disjoint(chunk_plan(total, workers)),
        forall|index: int|
            0 <= index < total ==> #[trigger] covered(chunk_plan(total, workers), index),
{
    let plan = chunk_plan(total, workers);
    let n = effective_workers_spec(total, workers);
    assert forall|k: int| 0 <= k < n implies plan[k].start == chunk_start(total, workers, k as nat)
        && plan[k].end == chunk_end(total, workers, k as nat) by {
        lemma_chunk_bounds(total, workers, k as nat);
    }
    assert forall|i: int, j: int, index: int|
        0 <= i < plan.len() && 0 <= j < plan.len() && #[trigger] plan[i].contains(index)
            && #[trigger] plan[j].contains(index) implies i == j by {
        if i < j {
            lemma_chunks_ordered(total, workers, i as nat, j as nat);
        } else if j < i {
            lemma_chunks_ordered(total, workers, j as nat, i as nat);
        }
    }
    assert forall|index: int| 0 <= index < total implies #[trigger] covered(plan, index) by {
        let k = lemma_chunk_of_index(total, workers, index as nat);
        assert(plan[k as int].contains(index));
    }
}

/// Finds the chunk that holds a given manifest position.
pub proof fn lemma_chunk_of_index(total: nat, workers: nat, index: nat) -> (k: nat)
    requires
        workers >= 1,
        index < total,
    ensures
        k < effective_workers_spec(total, workers),
        chunk_start(total, workers, k) <= index < chunk_end(total, workers, k),
{
    let n = effective_workers_spec(total, workers);
    let size = chunk_size(total, workers);
    lemma_chunk_bounds(total, workers, (n - 1) as nat);
    if index >= chunk_start(total, workers, (n - 1) as nat) {
        (n - 1) as nat
    } else {
        let k = index / size;
        let i = index as int;
        let s = size as int;
        let m = n as int;
        assert(s > 0) by {
            if s == 0 {
                assert((m - 1) * s == 0) by (nonlinear_arith)
                    requires
                        s == 0,
                ;
            }
        }
        assert((i / s) * s <= i < (i / s + 1) * s && 0 <= i / s) by (nonlinear_arith)
            requires
                s > 0,
                i >= 0,
        ;
        assert(i / s < m - 1) by (nonlinear_arith)
            requires
                (i / s) * s <= i,
                i < (m - 1) * s,
                s > 0,
        ;
        k
    }
}

/// Concatenating the chunks of a manifest in assignment order gives the
/// manifest back: nothing is left out, nothing is repeated, nothing moves.
pub proof fn lemma_partition_reassembles<T>(manifest: Seq<T>, workers: nat)
    requires
        workers >= 1,
    ensures
        partition_spec(manifest, workers).flatten() == manifest,
{
    let n = effective_workers_spec(manifest.len(), workers);
    let parts = partition_spec(manifest, workers);
    lemma_prefix_reassembles(manifest, workers, n);
    lemma_chunk_bounds(manifest.len(), workers, (n - 1) as nat);
    assert(parts.take(n as int) =~= parts);
    assert(manifest.take(manifest.len() as int) =~= manifest);
}

/// The first `count` chunks concatenate to the part of the manifest that
/// precedes the end of the last of them.
proof fn lemma_prefix_reassembles<T>(manifest: Seq<T>, workers: nat, count: nat)
    requires
        workers >= 1,
        count <= effective_workers_spec(manifest.len(), workers),
    ensures
        partition_spec(manifest, workers).take(count as int).flatten() == manifest.take(
            if count == 0 {
                0
            } else {
                chunk_end(manifest.len(), workers, (count - 1) as nat) as int
            },
        ),
    decreases count,
{
    let parts = partition_spec(manifest, workers);
    let total = manifest.len();
    if count == 0 {
        assert(parts.take(0) =~= Seq::<Seq<T>>::empty());
        assert(manifest.take(0) =~= Seq::<T>::empty());
    } else {
        let k = (count - 1) as nat;
        lemma_prefix_reassembles(manifest, workers, k);
        lemma_chunk_bounds(total, workers, k);
        if k > 0 {
            lemma_chunk_bounds(total, workers, (k - 1) as nat);
        }
        let start = chunk_start(total, workers, k) as int;
        let end = chunk_end(total, workers, k) as int;
        assert(parts.take(count as int) =~= parts.take(k as int).push(parts[k as int]));
        parts.take(k as int).lemma_flatten_push(parts[k as int]);
        assert(manifest.take(start) + manifest.subrange(start, end) =~= manifest.take(end));
    }
}

/// When more workers are asked for than the manifest has entries, no more
/// chunks than entries are handed out, and so at most that many chunks hold
/// work.
pub proof fn lemma_excess_workers(total: nat, workers: nat)
    requires
        workers > total,
    ensures
        chunk_plan(total, workers).len() <= if total == 0 {
            1
        } else {
            total
        },
        non_empty_chunks(chunk_plan(total, workers)) <= total,
{
    let plan = chunk_plan(total, workers);
    let holds_work = |chunk: WorkChunk| chunk.start < chunk.end;
    plan.lemma_filter_len(holds_work);
    if total == 0 {
        assert(plan =~= seq![WorkChunk { start: 0, end: 0 }]);
        reveal_with_fuel(Seq::filter, 2);
        assert(plan.drop_last() =~= Seq::<WorkChunk>::empty());
    }
}

/// Computes the clamped worker count `min(workers, max(total, 1))`.
pub fn effective_workers(total: usize, workers: usize) -> (n: usize)
    requires
        workers >= 1,
    ensures
        n == effective_workers_spec(total as nat, workers as nat),
        1 <= n <= workers,
{
    if total == 0 {
        1
    } else if workers < total {
        workers
    } else {
        total
    }
}

/// Plans the chunks for a manifest of `total` entries and `workers` workers:
/// one chunk per effective worker, in assignment order.
pub fn plan_chunks(total: usize, workers: usize) -> (chunks: Vec<WorkChunk>)
    requires
        workers >= 1,
    ensures
        chunks@ == chunk_plan(total as nat, workers as nat),
        pairwise_disjoint(chunks@),
        forall|index: int| 0 <= index < total ==> #[trigger] covered(chunks@, index),
        workers > total ==> non_empty_chunks(chunks@) <= total,
{
    let count = effective_workers(total, workers);
    let size = total / count;
    let mut chunks: Vec<WorkChunk> = Vec::new();
    let mut start: usize = 0;
    let mut k: usize = 0;
    while k < count
        invariant
            workers >= 1,
            count == effective_workers_spec(total as nat, workers as nat),
            size == chunk_size(total as nat, workers as nat),
            k <= count,
            k < count ==> start == chunk_start(total as nat, workers as nat, k as nat),
            chunks@ == chunk_plan(total as nat, workers as nat).take(k as int),
        decreases count - k,
    {
        proof {
            lemma_chunk_bounds(total as nat, workers as nat, k as nat);
        }
        let end = if k + 1 == count {
            total
        } else {
            start + size
        };
        chunks.push(WorkChunk { start, end });
        assert(chunks@ =~= chunk_plan(total as nat, workers as nat).take(k + 1));
        start = end;
        k += 1;
    }
    assert(chunks@ =~= chunk_plan(total as nat, workers as nat));
    proof {
        lemma_chunks_cover_exactly_once(total as nat, workers as nat);
        if workers > total {
            lemma_excess_workers(total as nat, workers as nat);
        }
    }
    chunks
}

/// Copies the entries `manifest[start..end]` into a vector of their own.
fn copy_entries(manifest: &Vec<String>, start: usize, end: usize) -> (entries: Vec<String>)
    requires
        start <= end <= manifest.len(),
    ensures
        entries@ == manifest@.subrange(start as int, end as int),
{
    let mut entries: Vec<String> = Vec::new();
    let mut i: usize = start;
    while i < end
        invariant
            start <= i <= end <= manifest.len(),
            entries@ == manifest@.subrange(start as int, i as int),
        decreases end - i,
    {
        entries.push(manifest[i].clone());
        i += 1;
        assert(entries@ =~= manifest@.subrange(start as int, i as int));
    }
    entries
}

/// Partitions `manifest` among `workers` workers: returns the chunks, each a
/// run of consecutive manifest entries in manifest order, one per effective
/// worker.
pub fn partition(manifest: &Vec<String>, workers: usize) -> (chunks: Vec<Vec<String>>)
    requires
        workers >= 1,
    ensures
        chunk_views(chunks@) == partition_spec(manifest@, workers as nat),
        chunk_views(chunks@).flatten() == manifest@,
{
    let total = manifest.len();
    let plan = plan_chunks(total, workers);
    let mut chunks: Vec<Vec<String>> = Vec::new();
    let mut k: usize = 0;
    while k < plan.len()
        invariant
            workers >= 1,
            total == manifest@.len(),
            plan@ == chunk_plan(manifest@.len(), workers as nat),
            k <= plan.len(),
            chunks.len() == k,
            forall|j: int|
                0 <= j < k ==> (#[trigger] chunks[j])@ == partition_spec(
                    manifest@,
                    workers as nat,
                )[j],
        decreases plan.len() - k,
    {
        let chunk = plan[k];
        proof {
            lemma_chunk_bounds(manifest@.len(), workers as nat, k as nat);
            assert(chunk == chunk_plan(manifest@.len(), workers as nat)[k as int]);
            assert(chunk.start == chunk_start(manifest@.len(), workers as nat, k as nat));
            assert(chunk.end == chunk_end(manifest@.len(), workers as nat, k as nat));
        }
        chunks.push(copy_entries(manifest, chunk.start, chunk.end));
        k += 1;
    }
    proof {
        assert(chunk_views(chunks@) =~= partition_spec(manifest@, workers as nat));
        lemma_partition_reassembles(manifest@, workers as nat);
    }
    chunks
}

} // verus!
