//! Cutting the commits into chunks and sizing the worker pool.
//!
//! The chunk size is the number of commits per parallel execution unit,
//! held between a smallest and a largest size. Three quarters of the units,
//! rounded up, run chunks at the same time, so that the machine keeps some
//! headroom. The chunks are contiguous ranges of the enumeration, in its
//! order; only the last one may be shorter than the chunk size.

use vstd::prelude::*;

verus! {

/// The smallest chunk that is dispatched, but for the last one.
pub const MIN_CHUNK_SIZE: usize = 100;

/// The largest chunk that is dispatched.
pub const MAX_CHUNK_SIZE: usize = 2000;

/// The number of units to reckon with: at least one.
pub open spec fn at_least_one(units: nat) -> nat {
    if units == 0 {
        1
    } else {
        units
    }
}

/// The chunk size for `total` commits on `units` parallel units: the
/// commits per unit, but no fewer than 100 and no more than 2000.
pub open spec fn chunk_size_for(total: nat, units: nat) -> nat {
    let share = total / at_least_one(units);
    if share < MIN_CHUNK_SIZE {
        MIN_CHUNK_SIZE as nat
    } else if share > MAX_CHUNK_SIZE {
        MAX_CHUNK_SIZE as nat
    } else {
        share
    }
}

/// The number of chunks that run at the same time on `units` parallel
/// units: three quarters of them, rounded up, and at least one.
pub open spec fn task_count_for(units: nat) -> nat {
    ((3 * at_least_one(units) + 3) / 4) as nat
}

/// The chunk size for `total_commits` commits on `units` parallel units;
/// no units count as one.
pub fn chunk_size_on(total_commits: usize, units: usize) -> (size: usize)
    ensures
        size == chunk_size_for(total_commits as nat, units as nat),
        MIN_CHUNK_SIZE <= size <= MAX_CHUNK_SIZE,
{
    let units = if units == 0 {
        1
    } else {
        units
    };
    let share = total_commits / units;
    if share < MIN_CHUNK_SIZE {
        MIN_CHUNK_SIZE
    } else if share > MAX_CHUNK_SIZE {
        MAX_CHUNK_SIZE
    } else {
        share
    }
}

/// The number of chunks that run at the same time on `units` parallel
/// units; no units count as one.
pub fn task_count_on(units: usize) -> (count: usize)
    ensures
        count == task_count_for(units as nat),
        1 <= count,
        count <= at_least_one(units as nat),
{
    let units = if units == 0 {
        1
    } else {
        units
    };
    units - units / 4
}

/// Calls `num_cpus::get`. Trusted; the number depends on the machine, and
/// nothing is promised of it.
#[verifier::external_body]
fn available_units() -> (units: usize) {
    num_cpus::get()
}

/// The chunk size for `total_commits` commits on this machine.
pub fn get_optimal_chunk_size(total_commits: usize) -> (size: usize)
    ensures
        MIN_CHUNK_SIZE <= size <= MAX_CHUNK_SIZE,
        exists|units: nat| size == #[trigger] chunk_size_for(total_commits as nat, units),
{
    let units = available_units();
    chunk_size_on(total_commits, units)
}

/// The number of chunks that run at the same time on this machine.
pub fn get_optimal_task_count() -> (count: usize)
    ensures
        1 <= count,
        exists|units: nat| count == #[trigger] task_count_for(units),
{
    let units = available_units();
    task_count_on(units)
}

/// A chunk: the commits at the positions `start..end` of the enumeration.
#[derive(Clone, Copy, Debug, PartialEq, Eq, Structural)]
pub struct ChunkTask {
    pub start: usize,
    pub end: usize,
}

/// The number of chunks of `chunk_size` commits that `total` commits give.
pub open spec fn chunk_count(total: nat, chunk_size: nat) -> nat {
    if chunk_size == 0 {
        0
    } else {
        ((total + chunk_size - 1) / chunk_size as int) as nat
    }
}

/// The `k`-th chunk where `total` commits are cut into chunks of
/// `chunk_size`.
pub open spec fn chunk_at(total: nat, chunk_size: nat, k: nat) -> ChunkTask {
    ChunkTask {
        start: (k * chunk_size) as usize,
        end: if (k + 1) * chunk_size <= total {
            ((k + 1) * chunk_size) as usize
        } else {
            total as usize
        },
    }
}

/// `chunks` cuts `total` commits into chunks of `chunk_size`.
pub open spec fn is_plan(chunks: Seq<ChunkTask>, total: nat, chunk_size: nat) -> bool {
    &&& chunks.len() == chunk_count(total, chunk_size)
    &&& forall|k: int| 0 <= k < chunks.len() ==> #[trigger] chunks[k] == chunk_at(
        total,
        chunk_size,
        k as nat,
    )
}

/// A plan covers the enumeration without gaps or overlaps: the first chunk
/// starts at the front, each chunk starts where the one before ends, the
/// last one ends at the end, and every chunk holds at least one commit and
/// at most `chunk_size`.
pub proof fn lemma_plan_covers(chunks: Seq<ChunkTask>, total: nat, chunk_size: nat)
    requires
        is_plan(chunks, total, chunk_size),
        chunk_size >= 1,
        total <= usize::MAX,
    ensures
        total == 0 <==> chunks.len() == 0,
        chunks.len() > 0 ==> chunks[0].start == 0 && chunks.last().end == total,
        forall|k: int| 0 <= k < chunks.len() - 1 ==> (#[trigger] chunks[k]).end == chunks[k
            + 1].start,
        forall|k: int|
            0 <= k < chunks.len() ==> (#[trigger] chunks[k]).start < chunks[k].end <= total
                && chunks[k].end - chunks[k].start <= chunk_size,
        forall|k: int|
            0 <= k < chunks.len() - 1 ==> (#[trigger] chunks[k]).end - chunks[k].start
                == chunk_size,
{
    let n = chunks.len() as int;
    let c = chunk_size as int;
    let t = total as int;
    assert forall|k: int| 0 <= k < n implies (#[trigger] chunks[k]).start < chunks[k].end <= total
        && chunks[k].end - chunks[k].start <= chunk_size by {
        assert(chunks[k] == chunk_at(total, chunk_size, k as nat));
        lemma_chunk_bounds(k, n, c, t);
    }
    assert forall|k: int| 0 <= k < n - 1 implies (#[trigger] chunks[k]).end == chunks[k + 1].start
        && chunks[k].end - chunks[k].start == chunk_size by {
        assert(chunks[k] == chunk_at(total, chunk_size, k as nat));
        assert(chunks[k + 1] == chunk_at(total, chunk_size, (k + 1) as nat));
        lemma_chunk_bounds(k, n, c, t);
        lemma_chunk_bounds(k + 1, n, c, t);
    }
    if n > 0 {
        assert(chunks[0] == chunk_at(total, chunk_size, 0));
        assert(chunks[n - 1] == chunk_at(total, chunk_size, (n - 1) as nat));
        lemma_chunk_bounds(0, n, c, t);
        lemma_chunk_bounds(n - 1, n, c, t);
    } else {
        assert(t == 0) by (nonlinear_arith)
            requires
                0 == (t + c - 1) / c,
                c >= 1,
                t >= 0,
        ;
    }
    if t == 0 {
        assert(n == 0) by (nonlinear_arith)
            requires
                n == (t + c - 1) / c,
                c >= 1,
                t == 0,
        ;
    }
}

/// Where the `k`-th of `n` chunks of `c` commits lies among `t` commits.
proof fn lemma_chunk_bounds(k: int, n: int, c: int, t: int)
    requires
        0 <= k < n,
        c >= 1,
        t >= 0,
        n == (t + c - 1) / c,
    ensures
        0 <= k * c < t,
        (k + 1) * c == k * c + c,
        k + 1 < n ==> (k + 1) * c < t,
        k + 1 == n ==> (k + 1) * c >= t,
        k == 0 ==> k * c == 0,
{
    assert((n - 1) * c < t <= n * c) by (nonlinear_arith)
        requires
            n == (t + c - 1) / c,
            c >= 1,
            t >= 0,
            n >= 1,
    ;
    assert(0 <= k * c <= (n - 1) * c && (k + 1) * c == k * c + c) by (nonlinear_arith)
        requires
            0 <= k < n,
            c >= 1,
    ;
    if k + 1 < n {
        assert((k + 1) * c <= (n - 1) * c) by (nonlinear_arith)
            requires
                k + 1 < n,
                c >= 1,
        ;
    }
    if k + 1 == n {
        assert((k + 1) * c == n * c);
    }
}

/// Cuts `total` commits into chunks of `chunk_size`, in the order of the
/// enumeration.
pub fn plan_chunks(total: usize, chunk_size: usize) -> (chunks: Vec<ChunkTask>)
    requires
        chunk_size >= 1,
    ensures
        is_plan(chunks@, total as nat, chunk_size as nat),
{
    let mut chunks: Vec<ChunkTask> = Vec::new();
    let mut start: usize = 0;
    let ghost c = chunk_size as int;
    let ghost t = total as int;
    assert(0 * c == 0) by (nonlinear_arith);
    while start < total
        invariant
            c == chunk_size as int,
            t == total as int,
            c >= 1,
            0 <= start <= total,
            start < total ==> start == chunks@.len() * c,
            start == total ==> (chunks@.len() - 1) * c < t <= chunks@.len() * c || (t == 0
                && chunks@.len() == 0),
            forall|k: int| 0 <= k < chunks@.len() ==> #[trigger] chunks@[k] == chunk_at(
                total as nat,
                chunk_size as nat,
                k as nat,
            ),
        decreases total - start,
    {
        let ghost k = chunks@.len() as int;
        let left = total - start;
        let end = if chunk_size <= left {
            start + chunk_size
        } else {
            total
        };
        proof {
            assert((k + 1) * c == k * c + c) by (nonlinear_arith);
            assert((k + 1 - 1) * c == k * c) by (nonlinear_arith);
        }
        chunks.push(ChunkTask { start, end });
        start = end;
    }
    proof {
        let n = chunks@.len() as int;
        assert(n == (t + c - 1) / c) by (nonlinear_arith)
            requires
                (n - 1) * c < t <= n * c || (t == 0 && n == 0),
                c >= 1,
                n >= 0,
        ;
    }
    chunks
}

/// What the scheduler decides for one analysis.
#[derive(Debug)]
pub struct ChunkPlan {
    /// The number of commits in each chunk but the last.
    pub chunk_size: usize,
    /// The number of chunks that run at the same time.
    pub task_count: usize,
    /// The chunks, in the order of the enumeration.
    pub chunks: Vec<ChunkTask>,
}

/// The plan for `total_commits` commits on `units` parallel units.
pub fn plan_on(total_commits: usize, units: usize) -> (plan: ChunkPlan)
    ensures
        plan.chunk_size == chunk_size_for(total_commits as nat, units as nat),
        plan.task_count == task_count_for(units as nat),
        is_plan(plan.chunks@, total_commits as nat, plan.chunk_size as nat),
{
    let chunk_size = chunk_size_on(total_commits, units);
    let task_count = task_count_on(units);
    let chunks = plan_chunks(total_commits, chunk_size);
    ChunkPlan { chunk_size, task_count, chunks }
}

/// The plan for `total_commits` commits on this machine.
pub fn plan(total_commits: usize) -> (plan: ChunkPlan)
    ensures
        exists|units: nat|
            plan.chunk_size == #[trigger] chunk_size_for(total_commits as nat, units)
                && plan.task_count == task_count_for(units),
        is_plan(plan.chunks@, total_commits as nat, plan.chunk_size as nat),
{
    let units = available_units();
    plan_on(total_commits, units)
}

/// The commit ids of one chunk, in the order of the enumeration.
pub fn chunk_ids(ids: &[git2::Oid], task: ChunkTask) -> (chunk: Vec<git2::Oid>)
    requires
        task.start <= task.end <= ids@.len(),
    ensures
        chunk@ == ids@.subrange(task.start as int, task.end as int),
{
    let mut chunk: Vec<git2::Oid> = Vec::new();
    let mut i: usize = task.start;
    while i < task.end
        invariant
            task.start <= i <= task.end,
            task.end <= ids@.len(),
            chunk@ =~= ids@.subrange(task.start as int, i as int),
        decreases task.end - i,
    {
        chunk.push(ids[i]);
        i += 1;
    }
    chunk
}

} // verus!
