//! Reading the commits of a chunk from a repository and counting them.
//!
//! A worker looks each commit of its chunk up, reads the author, and, where
//! the contributor filter accepts the author, compares the commit's tree
//! with the tree of each parent. A comparison that fails is recorded as
//! failed and costs the commit only its line counts; a commit that cannot be
//! looked up fails the whole chunk.

use vstd::prelude::*;
use crate::commits::{
    accepts,
    author_label,
    chunk_stats,
    count_record,
    filter_accepts,
    offered,
    sum_hunks,
    CommitModel,
    CommitRecord,
    LineChange,
};
use crate::errors::ChunkTaskError;
use crate::git::{
    commit_author_name,
    commit_parent,
    commit_parent_count,
    commit_seconds,
    commit_tree,
    error_text,
    find_commit,
    hunk_sizes,
    open_repository,
    tree_changes,
    DiffPolicy,
};
use crate::stats::{PartialStats, StatsModel};

verus! {

/// The comparison that counts lines: whitespace-only changes, file modes,
/// submodules and untracked files are passed over, no context lines are
/// kept, and the smallest diff is looked for with the patience algorithm
/// and the indent heuristic.
pub fn line_count_policy() -> (policy: DiffPolicy)
    ensures
        policy == (DiffPolicy {
            include_untracked: false,
            ignore_whitespace: true,
            context_lines: 0,
            ignore_filemode: true,
            ignore_submodules: true,
            minimal: true,
            patience: true,
            indent_heuristic: true,
        }),
{
    DiffPolicy {
        include_untracked: false,
        ignore_whitespace: true,
        context_lines: 0,
        ignore_filemode: true,
        ignore_submodules: true,
        minimal: true,
        patience: true,
        indent_heuristic: true,
    }
}

/// The line counts of one comparison from the outcome of walking its
/// hunks: their sums, or `None` where the walk failed or a sum does not fit
/// the machine word.
pub fn comparison_result(hunks: Option<Vec<(u32, u32)>>) -> (change: Option<LineChange>)
    ensures
        hunks is None ==> change is None,
        hunks matches Some(sizes) ==> (change is Some <==> crate::commits::new_lines_in(sizes@)
            <= usize::MAX && crate::commits::old_lines_in(sizes@) <= usize::MAX),
        hunks matches Some(sizes) ==> (change matches Some(c) ==> c.added
            == crate::commits::new_lines_in(sizes@) && c.deleted == crate::commits::old_lines_in(
            sizes@,
        )),
{
    match hunks {
        Some(sizes) => sum_hunks(&sizes),
        None => None,
    }
}

/// Compares `new` with `old` (the empty tree where `old` is `None`) and
/// counts the lines. `None` where the comparison failed.
fn compare_trees(
    repo: &git2::Repository,
    old: Option<&git2::Tree<'_>>,
    new: &git2::Tree<'_>,
) -> (change: Option<LineChange>) {
    let policy = line_count_policy();
    match tree_changes(repo, old, new, &policy) {
        Ok(diff) => match hunk_sizes(&diff) {
            Ok(sizes) => comparison_result(Some(sizes)),
            Err(_) => comparison_result(None),
        },
        Err(_) => None,
    }
}

/// The number of comparisons that a commit with `parents` parents has: one
/// with the empty tree for a root commit, else one with each parent.
pub open spec fn comparisons_for(parents: nat) -> nat {
    if parents == 0 {
        1
    } else {
        parents
    }
}

/// Compares the tree of `commit` with the tree of each of its `parents`
/// parents, in their order, and for a root commit with the empty tree.
/// A parent that cannot be read gives a failed comparison.
fn compare_with_parents(
    repo: &git2::Repository,
    commit: &git2::Commit<'_>,
    tree: &git2::Tree<'_>,
    parents: usize,
) -> (diffs: Vec<Option<LineChange>>)
    ensures
        diffs@.len() == comparisons_for(parents as nat),
{
    let mut diffs: Vec<Option<LineChange>> = Vec::new();
    if parents == 0 {
        diffs.push(compare_trees(repo, None, tree));
        return diffs;
    }
    let mut i: usize = 0;
    while i < parents
        invariant
            0 <= i <= parents,
            diffs@.len() == i,
        decreases parents - i,
    {
        let change = match commit_parent(commit, i) {
            Ok(parent) => match commit_tree(&parent) {
                Ok(parent_tree) => compare_trees(repo, Some(&parent_tree), tree),
                Err(_) => None,
            },
            Err(_) => None,
        };
        diffs.push(change);
        i += 1;
    }
    diffs
}

/// The comparisons of a commit: none where its own tree cannot be read,
/// else those of `compare_with_parents`.
fn commit_diffs(repo: &git2::Repository, commit: &git2::Commit<'_>) -> (diffs: Vec<
    Option<LineChange>,
>) {
    match commit_tree(commit) {
        Ok(tree) => {
            let parents = commit_parent_count(commit);
            compare_with_parents(repo, commit, &tree, parents)
        },
        Err(_) => Vec::new(),
    }
}

/// Reads what the counting needs of the commit `id`. The trees are compared
/// only where the filter `contributor` accepts the author: a commit that
/// will be skipped has no comparisons. Fails where the commit cannot be
/// looked up.
pub fn read_commit(repo: &git2::Repository, id: git2::Oid, contributor: &str) -> (outcome: Result<
    CommitRecord,
    ChunkTaskError,
>)
    ensures
        outcome matches Ok(record) ==> (accepts(contributor@, record@.author)
            || record.diffs@.len() == 0),
        outcome matches Err(e) ==> e is Handle,
{
    match find_commit(repo, id) {
        Ok(commit) => {
            let author = commit_author_name(&commit);
            let seconds = commit_seconds(&commit);
            let label = author_label(&author);
            let diffs = if filter_accepts(contributor, label.as_str()) {
                commit_diffs(repo, &commit)
            } else {
                Vec::new()
            };
            Ok(CommitRecord { author, seconds, diffs })
        },
        Err(error) => Err(ChunkTaskError::Handle(error_text(&error))),
    }
}

/// Counting some commits, no more than `limit`, under the filter
/// `contributor` gives a count or a total that does not fit the machine
/// word.
pub open spec fn overflows_within(limit: nat, contributor: Seq<char>) -> bool {
    exists|commits: Seq<CommitModel>|
        commits.len() <= limit && !(#[trigger] chunk_stats(commits, contributor)).fits()
}

/// Counts the commits of `chunk`, read from `repo` in order, under the
/// filter `contributor`. Whatever the repository holds, a result is what
/// counting one commit for each id of the chunk gives. The chunk fails as a
/// whole where a commit cannot be looked up or a total does not fit the
/// machine word: it fails for its totals only where the commits read so
/// far exceed the machine word, and an empty chunk, for which nothing is
/// read, gives the empty counts.
pub fn process_commit_chunk(repo: &git2::Repository, chunk: &[git2::Oid], contributor: &str) -> (
    outcome: Result<PartialStats, ChunkTaskError>)
    ensures
        outcome matches Ok(stats) ==> stats.wf() && exists|commits: Seq<CommitModel>|
            commits.len() == chunk@.len() && stats@ == #[trigger] chunk_stats(
                commits,
                contributor@,
            ),
        chunk@.len() == 0 ==> (outcome matches Ok(stats) && stats@ == StatsModel::empty()),
        outcome matches Err(e) ==> (e is TotalsOverflow ==> overflows_within(
            chunk@.len() as nat,
            contributor@,
        )),
{
    let mut stats = PartialStats::new();
    let ghost mut commits: Seq<CommitModel> = Seq::empty();
    let mut i: usize = 0;
    while i < chunk.len()
        invariant
            0 <= i <= chunk@.len(),
            stats.wf(),
            commits.len() == i,
            stats@ == chunk_stats(commits, contributor@),
        decreases chunk@.len() - i,
    {
        let record = match read_commit(repo, chunk[i], contributor) {
            Ok(record) => record,
            Err(error) => {
                return Err(error);
            },
        };
        let ghost read = commits.push(record@);
        proof {
            assert(read.drop_last() =~= commits);
            assert(chunk_stats(read, contributor@) == offered(stats@, record@, contributor@));
        }
        if !count_record(&mut stats, &record, contributor) {
            return Err(ChunkTaskError::TotalsOverflow);
        }
        proof {
            commits = read;
        }
        i += 1;
    }
    Ok(stats)
}

/// Opens the repository at `path` and counts the commits of `chunk` in it:
/// the work of one worker, which holds a handle of its own. Where the
/// repository cannot be opened the chunk fails for its handle; else the
/// outcome is that of `process_commit_chunk`.
pub fn process_chunk_at(path: &str, chunk: &[git2::Oid], contributor: &str) -> (outcome: Result<
    PartialStats,
    ChunkTaskError,
>)
    ensures
        outcome matches Ok(stats) ==> stats.wf() && exists|commits: Seq<CommitModel>|
            commits.len() == chunk@.len() && stats@ == #[trigger] chunk_stats(
                commits,
                contributor@,
            ),
        outcome matches Err(e) ==> (e is TotalsOverflow ==> overflows_within(
            chunk@.len() as nat,
            contributor@,
        )),
        chunk@.len() == 0 ==> (outcome matches Err(e) ==> e is Handle),
{
    match open_repository(path) {
        Ok(repo) => process_commit_chunk(&repo, chunk, contributor),
        Err(error) => Err(ChunkTaskError::Handle(error_text(&error))),
    }
}

} // verus!
