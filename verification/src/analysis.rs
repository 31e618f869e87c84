//! The analysis of a repository.
//!
//! The commits that can be reached from a branch are enumerated, cut into
//! chunks, read and counted chunk by chunk, and the counts are merged into
//! one result. A chunk that fails is left out of the result; the analysis
//! goes on without it.

use vstd::prelude::*;
use crate::branches::{
    ascending,
    is_branch_order,
    is_sorting_of,
    order_branches,
    pinned,
    readable_names,
};
use crate::clock::{clock_now, elapsed_millis};
use crate::commits::{chunk_stats, lemma_chunk_stats_balanced, CommitModel};
use crate::errors::AnalysisError;
use crate::git::{
    branch_names,
    branch_reference_name,
    error_text,
    find_local_branch,
    new_walk,
    open_repository,
    walk_commit_ids,
    walk_from_head,
    walk_from_reference,
    BranchScope,
};
use crate::progress::{initial_estimate, initial_snapshot, ProgressAggregator, ProgressEstimate};
use crate::result::{is_summary_of, summarize};
use crate::schedule::{chunk_ids, is_plan, lemma_plan_covers, plan, ChunkTask};
use crate::stats::{
    counted_in,
    dropped,
    lemma_surviving,
    merge_surviving,
    outcome_models,
    surviving,
    PartialStats,
    StatsModel,
};
use crate::summary::processing_summary;
use crate::tally::texts_of;
use crate::types::AnalysisResult;
use crate::worker::process_commit_chunk;

verus! {

/// Opens the repository at `path`.
pub fn open(path: &str) -> (outcome: Result<git2::Repository, AnalysisError>)
    ensures
        outcome matches Err(e) ==> e is Open,
{
    match open_repository(path) {
        Ok(repo) => Ok(repo),
        Err(error) => Err(AnalysisError::Open(error_text(&error))),
    }
}

/// The local branches of the repository: sorted by name, then the default
/// branch ("main", else "master") in the place of the first.
pub fn get_available_branches(repo: &git2::Repository) -> (outcome: Result<
    Vec<String>,
    AnalysisError,
>)
    ensures
        outcome matches Ok(ordered) ==> is_branch_order(texts_of(ordered@)),
        outcome matches Err(e) ==> e is Branches,
{
    match branch_names(repo, BranchScope::Local) {
        Ok(listed) => {
            let names = readable_names(listed);
            let ordered = order_branches(names);
            proof {
                let sorted = choose|sorted: Seq<Seq<char>>| #[trigger]
                    is_sorting_of(sorted, texts_of(names@)) && texts_of(ordered@) == pinned(
                        sorted,
                    );
                assert(ascending(sorted) && texts_of(ordered@) == pinned(sorted));
            }
            Ok(ordered)
        },
        Err(error) => Err(AnalysisError::Branches(error_text(&error))),
    }
}

/// The local branches of the repository at `path`, the default branch
/// first.
pub fn list_branches(path: &str) -> (outcome: Result<Vec<String>, AnalysisError>)
    ensures
        outcome matches Ok(ordered) ==> is_branch_order(texts_of(ordered@)),
        outcome matches Err(e) ==> e is Open || e is Branches,
{
    match open(path) {
        Ok(repo) => get_available_branches(&repo),
        Err(error) => Err(error),
    }
}

/// Where a walk over the commits begins.
#[derive(Debug)]
pub enum WalkStart {
    /// At the reference of this name.
    Reference(String),
    /// At the current head of the repository.
    Head,
}

/// Where the walk begins for the outcome of looking a branch up: at the
/// reference of the branch where the branch was found and its reference
/// has a name, else at the head.
pub fn walk_start(reference: Option<Option<String>>) -> (start: WalkStart)
    ensures
        match reference {
            Some(Some(name)) => start matches WalkStart::Reference(text) && text@ == name@,
            _ => start is Head,
        },
{
    match reference {
        Some(Some(name)) => WalkStart::Reference(name),
        _ => WalkStart::Head,
    }
}

/// The commits that can be reached from `branch`, in the order of the
/// walk; from the head where the repository has no local branch of that
/// name. Fails where the walk cannot be made.
pub fn enumerate_commits(repo: &git2::Repository, branch: &str) -> (outcome: Result<
    Vec<git2::Oid>,
    AnalysisError,
>)
    ensures
        outcome matches Err(e) ==> e is Enumeration,
{
    let mut walk = match new_walk(repo) {
        Ok(walk) => walk,
        Err(error) => {
            return Err(AnalysisError::Enumeration(error_text(&error)));
        },
    };
    let reference = match find_local_branch(repo, branch) {
        Ok(found) => Some(branch_reference_name(&found)),
        Err(_) => None,
    };
    let pushed = match walk_start(reference) {
        WalkStart::Reference(name) => walk_from_reference(&mut walk, name.as_str()),
        WalkStart::Head => walk_from_head(&mut walk),
    };
    match pushed {
        Ok(()) => {},
        Err(error) => {
            return Err(AnalysisError::Enumeration(error_text(&error)));
        },
    }
    match walk_commit_ids(walk) {
        Ok(ids) => Ok(ids),
        Err(error) => Err(AnalysisError::Enumeration(error_text(&error))),
    }
}

/// What counting the chunks of an enumeration has given.
#[derive(Debug)]
pub struct ChunkedCounts {
    /// The counts of the chunks that succeeded, merged in their order.
    pub stats: PartialStats,
    /// The snapshots of the progress: one at the start and one after each
    /// chunk.
    pub progress: Vec<ProgressEstimate>,
    /// The number of chunks that failed and were left out.
    pub dropped_chunks: usize,
}

/// The snapshots start with the initial one, count upwards, never beyond
/// the total, and end with all commits processed.
pub open spec fn is_progress_of(progress: Seq<ProgressEstimate>, total: nat) -> bool {
    &&& progress.len() >= 1
    &&& progress[0] == initial_snapshot(total)
    &&& forall|i: int|
        0 <= i < progress.len() ==> (#[trigger] progress[i]).total_commits == total
            && progress[i].processed_commits <= total
    &&& forall|i: int, j: int|
        0 <= i <= j < progress.len() ==> (#[trigger] progress[i]).processed_commits <= (
        #[trigger] progress[j]).processed_commits
    &&& progress.last().processed_commits == total
}

/// Reads and counts the commits `ids` chunk by chunk, in the order of
/// `chunks`. A chunk that fails, or whose counts no longer fit, is left
/// out and counted as dropped; the others are merged in their order.
pub fn count_chunks(
    repo: &git2::Repository,
    ids: &Vec<git2::Oid>,
    chunks: &Vec<ChunkTask>,
    chunk_size: usize,
    contributor: &str,
    started: &std::time::Instant,
) -> (counts: ChunkedCounts)
    requires
        chunk_size >= 1,
        is_plan(chunks@, ids@.len() as nat, chunk_size as nat),
    ensures
        counts.stats.wf(),
        counts.stats@.balanced(),
        counts.stats@.commit_count() <= ids@.len(),
        exists|outcomes: Seq<Option<StatsModel>>|
            outcomes.len() == chunks@.len() && counts.stats@ == #[trigger] surviving(outcomes)
                && counts.dropped_chunks == dropped(outcomes),
        counts.dropped_chunks <= chunks@.len(),
        counts.progress@.len() == chunks@.len() + 1,
        is_progress_of(counts.progress@, ids@.len() as nat),
{
    let total = ids.len();
    let mut outcomes: Vec<Option<PartialStats>> = Vec::new();
    let mut tracker = ProgressAggregator::new(total);
    let mut progress: Vec<ProgressEstimate> = Vec::new();
    progress.push(initial_estimate(total));
    let mut k: usize = 0;
    proof {
        lemma_plan_covers(chunks@, total as nat, chunk_size as nat);
        assert(outcome_models(outcomes@) =~= Seq::<Option<StatsModel>>::empty());
    }
    while k < chunks.len()
        invariant
            0 <= k <= chunks@.len(),
            total == ids@.len(),
            chunk_size >= 1,
            is_plan(chunks@, total as nat, chunk_size as nat),
            outcomes@.len() == k,
            forall|i: int|
                0 <= i < outcomes@.len() ==> (#[trigger] outcomes@[i] matches Some(part)
                    ==> part.wf() && part@.balanced()),
            counted_in(outcome_models(outcomes@)) <= tracker.processed(),
            tracker.wf(),
            tracker.total() == total,
            k < chunks@.len() ==> tracker.processed() == chunks@[k as int].start,
            k == chunks@.len() ==> tracker.processed() == total,
            progress@.len() == k + 1,
            progress@[0] == initial_snapshot(total as nat),
            forall|i: int|
                0 <= i < progress@.len() ==> (#[trigger] progress@[i]).total_commits == total
                    && progress@[i].processed_commits <= total,
            forall|i: int, j: int|
                0 <= i <= j < progress@.len() ==> (#[trigger] progress@[i]).processed_commits <= (
                #[trigger] progress@[j]).processed_commits,
            progress@.last().processed_commits == tracker.processed(),
        decreases chunks@.len() - k,
    {
        let task = chunks[k];
        proof {
            lemma_plan_covers(chunks@, total as nat, chunk_size as nat);
        }
        let chunk = chunk_ids(ids.as_slice(), task);
        let outcome = match process_commit_chunk(repo, chunk.as_slice(), contributor) {
            Ok(part) => {
                proof {
                    let commits = choose|commits: Seq<CommitModel>|
                        commits.len() == chunk@.len() && part@ == #[trigger] chunk_stats(
                            commits,
                            contributor@,
                        );
                    lemma_chunk_stats_balanced(commits, contributor@);
                }
                Some(part)
            },
            Err(_) => None,
        };
        let ghost given = outcome_models(outcomes@);
        outcomes.push(outcome);
        proof {
            assert(outcome_models(outcomes@).drop_last() =~= given);
        }
        let ghost before = progress@;
        let snapshot = tracker.chunk_done(chunk.len(), elapsed_millis(started));
        progress.push(snapshot);
        proof {
            assert forall|i: int, j: int| 0 <= i <= j < progress@.len() implies (
            #[trigger] progress@[i]).processed_commits <= (
            #[trigger] progress@[j]).processed_commits by {
                if j < before.len() {
                    assert(progress@[i] == before[i] && progress@[j] == before[j]);
                } else if i < before.len() {
                    assert(progress@[i] == before[i]);
                    assert(before[i].processed_commits <= before.last().processed_commits);
                }
            }
        }
        k += 1;
    }
    let ghost models = outcome_models(outcomes@);
    proof {
        assert forall|i: int| 0 <= i < models.len() implies (#[trigger] models[i] matches Some(
            part,
        ) ==> part.balanced()) by {
            assert(outcomes@[i] matches Some(part) ==> part@.balanced());
        }
        lemma_surviving(models);
    }
    let (stats, dropped_chunks) = merge_surviving(outcomes);
    ChunkedCounts { stats, progress, dropped_chunks }
}

/// What an analysis hands out.
#[derive(Debug)]
pub struct AnalysisReport {
    /// What the analysis has found.
    pub result: AnalysisResult,
    /// The snapshots of the progress, in the order in which they were
    /// made.
    pub progress: Vec<ProgressEstimate>,
    /// The number of chunks that failed and were left out of the result.
    pub dropped_chunks: usize,
}

/// The result of the report is the summary of counts that have one author
/// for each commit; the snapshots of the progress count up to all commits
/// of the enumeration, one snapshot at the start and one for each chunk;
/// and no more chunks were dropped than there were.
pub open spec fn is_report(report: &AnalysisReport) -> bool {
    &&& exists|stats: StatsModel| #[trigger]
        stats.balanced() && is_summary_of(
            &report.result,
            stats,
            report.result@.available_branches,
            report.result@.elapsed_time,
            report.result@.processing_stats,
        )
    &&& exists|total: nat| #[trigger]
        is_progress_of(report.progress@, total) && report.result@.commit_count <= total
    &&& report.dropped_chunks < report.progress@.len()
}

/// Analyses the repository at `path`: counts the commits that can be
/// reached from `branch` and that the filter `contributor` accepts, one
/// chunk after the other. Fails only where the repository cannot be
/// opened, the commits cannot be enumerated, or the branches cannot be
/// listed.
pub fn analyze_repo_with_filter(path: &str, branch: &str, contributor: &str) -> (outcome: Result<
    AnalysisReport,
    AnalysisError,
>)
    ensures
        outcome matches Ok(report) ==> is_report(&report),
        outcome matches Err(e) ==> e is Open || e is Enumeration || e is Branches,
{
    let started = clock_now();
    let repo = match open(path) {
        Ok(repo) => repo,
        Err(error) => {
            return Err(error);
        },
    };
    let ids = match enumerate_commits(&repo, branch) {
        Ok(ids) => ids,
        Err(error) => {
            return Err(error);
        },
    };
    let scheduled = plan(ids.len());
    assert(scheduled.chunk_size >= 1) by {
        let units = choose|units: nat|
            scheduled.chunk_size == #[trigger] crate::schedule::chunk_size_for(
                ids@.len() as nat,
                units,
            ) && scheduled.task_count == crate::schedule::task_count_for(units);
    }
    let counts = count_chunks(
        &repo,
        &ids,
        &scheduled.chunks,
        scheduled.chunk_size,
        contributor,
        &started,
    );
    let branches = match get_available_branches(&repo) {
        Ok(branches) => branches,
        Err(error) => {
            return Err(error);
        },
    };
    let elapsed = elapsed_millis(&started);
    let summary = processing_summary(
        ids.len(),
        elapsed,
        scheduled.chunk_size,
        scheduled.task_count,
    );
    let ghost model = counts.stats@;
    let ghost total = ids@.len() as nat;
    let result = summarize(&counts.stats, branches, elapsed, summary);
    let report = AnalysisReport {
        result,
        progress: counts.progress,
        dropped_chunks: counts.dropped_chunks,
    };
    proof {
        assert(model.balanced() && is_summary_of(
            &report.result,
            model,
            report.result@.available_branches,
            report.result@.elapsed_time,
            report.result@.processing_stats,
        ));
        assert(is_progress_of(report.progress@, total) && report.result@.commit_count <= total);
    }
    Ok(report)
}

} // verus!
