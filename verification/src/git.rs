//! The repository, as far as the analysis reads it.
//!
//! The functions of this module hand the calls of the analysis on to git2.
//! What a repository holds is not known here, so none of them promises
//! anything of what comes back: the callers are verified for every outcome.

use vstd::prelude::*;

verus! {

/// git2's `Repository`: a handle onto a repository. Nothing is known of
/// what it holds.
#[verifier::external_type_specification]
#[verifier::external_body]
pub struct ExRepository(git2::Repository);

/// git2's `Commit`, as it was looked up.
#[verifier::external_type_specification]
#[verifier::external_body]
pub struct ExCommit<'repo>(git2::Commit<'repo>);

/// git2's `Tree`: the files of a commit.
#[verifier::external_type_specification]
#[verifier::external_body]
pub struct ExTree<'repo>(git2::Tree<'repo>);

/// git2's `Diff`: the comparison of two trees.
#[verifier::external_type_specification]
#[verifier::external_body]
pub struct ExDiff<'repo>(git2::Diff<'repo>);

/// git2's `Revwalk`: a walk over the commits that can be reached.
#[verifier::external_type_specification]
#[verifier::external_body]
pub struct ExRevwalk<'repo>(git2::Revwalk<'repo>);

/// git2's `Branch`, as it was looked up.
#[verifier::external_type_specification]
#[verifier::external_body]
pub struct ExBranch<'repo>(git2::Branch<'repo>);

/// git2's `Oid`: the id of a commit, carried through as it is.
#[verifier::external_type_specification]
#[verifier::external_body]
pub struct ExOid(git2::Oid);

/// git2's `Error`; its message is read with `error_text`.
#[verifier::external_type_specification]
#[verifier::external_body]
pub struct ExError(git2::Error);

/// How two trees are compared when lines are counted.
#[derive(Clone, Copy, Debug, PartialEq, Eq, Structural)]
pub struct DiffPolicy {
    /// Whether files that are not tracked take part.
    pub include_untracked: bool,
    /// Whether changes of whitespace alone are passed over.
    pub ignore_whitespace: bool,
    /// The unchanged lines kept around each hunk.
    pub context_lines: u32,
    /// Whether changes of a file's mode are passed over.
    pub ignore_filemode: bool,
    /// Whether submodules count as unchanged.
    pub ignore_submodules: bool,
    /// Whether extra time is spent on the smallest diff.
    pub minimal: bool,
    /// Whether the patience algorithm is used.
    pub patience: bool,
    /// Whether hunk boundaries are shifted by the indent heuristic.
    pub indent_heuristic: bool,
}

/// Which branches a listing takes in.
#[derive(Clone, Copy, Debug, PartialEq, Eq, Structural)]
pub enum BranchScope {
    Local,
    Remote,
    Both,
}

/// Calls git2's `Repository::open`. Trusted; nothing is promised of the
/// outcome.
#[verifier::external_body]
pub(crate) fn open_repository(path: &str) -> (outcome: Result<git2::Repository, git2::Error>) {
    git2::Repository::open(path)
}

/// Calls git2's `Error::message` and copies the text. Trusted; nothing is
/// promised of the text.
#[verifier::external_body]
pub(crate) fn error_text(error: &git2::Error) -> (text: String) {
    error.message().to_string()
}

/// Calls git2's `Repository::find_commit`. Trusted; nothing is promised of
/// the outcome.
#[verifier::external_body]
pub(crate) fn find_commit<'repo>(repo: &'repo git2::Repository, id: git2::Oid) -> (outcome: Result<
    git2::Commit<'repo>,
    git2::Error,
>) {
    repo.find_commit(id)
}

/// Calls git2's `Commit::author` and `Signature::name` and copies the name,
/// which is absent where it is not UTF-8. Trusted; nothing is promised of
/// the name.
#[verifier::external_body]
pub(crate) fn commit_author_name(commit: &git2::Commit<'_>) -> (name: Option<String>) {
    commit.author().name().map(|text| text.to_string())
}

/// Calls git2's `Commit::time` and `Time::seconds`. Trusted; nothing is
/// promised of the number.
#[verifier::external_body]
pub(crate) fn commit_seconds(commit: &git2::Commit<'_>) -> (seconds: i64) {
    commit.time().seconds()
}

/// Calls git2's `Commit::tree`. Trusted; nothing is promised of the outcome.
#[verifier::external_body]
pub(crate) fn commit_tree<'repo>(commit: &git2::Commit<'repo>) -> (outcome: Result<
    git2::Tree<'repo>,
    git2::Error,
>) {
    commit.tree()
}

/// Calls git2's `Commit::parent_count`. Trusted; nothing is promised of the
/// number.
#[verifier::external_body]
pub(crate) fn commit_parent_count(commit: &git2::Commit<'_>) -> (count: usize) {
    commit.parent_count()
}

/// Calls git2's `Commit::parent`. Trusted; nothing is promised of the
/// outcome.
#[verifier::external_body]
pub(crate) fn commit_parent<'repo>(commit: &git2::Commit<'repo>, index: usize) -> (outcome: Result<
    git2::Commit<'repo>,
    git2::Error,
>) {
    commit.parent(index)
}

/// Calls git2's `Repository::diff_tree_to_tree` on `old` (the empty tree
/// where it is `None`) and `new`, with `DiffOptions` set field by field
/// from `policy`. Trusted; nothing is promised of the outcome.
#[verifier::external_body]
pub(crate) fn tree_changes<'repo>(
    repo: &'repo git2::Repository,
    old: Option<&git2::Tree<'_>>,
    new: &git2::Tree<'_>,
    policy: &DiffPolicy,
) -> (outcome: Result<git2::Diff<'repo>, git2::Error>) {
    let mut options = git2::DiffOptions::new();
    options
        .include_untracked(policy.include_untracked)
        .ignore_whitespace(policy.ignore_whitespace)
        .context_lines(policy.context_lines)
        .ignore_filemode(policy.ignore_filemode)
        .ignore_submodules(policy.ignore_submodules)
        .minimal(policy.minimal)
        .patience(policy.patience)
        .indent_heuristic(policy.indent_heuristic);
    repo.diff_tree_to_tree(old, Some(new), Some(&mut options))
}

/// Notes the size of one hunk behind those noted before, and says that the
/// walk over the hunks goes on.
pub fn note_hunk(sizes: &mut Vec<(u32, u32)>, new_lines: u32, old_lines: u32) -> (go_on: bool)
    ensures
        final(sizes)@ == old(sizes)@.push((new_lines, old_lines)),
        go_on,
{
    sizes.push((new_lines, old_lines));
    true
}

/// Calls git2's `Diff::foreach` and hands out, for each hunk in the order
/// of the walk, its `new_lines` and its `old_lines`. Trusted; nothing is
/// promised of the outcome.
#[verifier::external_body]
pub(crate) fn hunk_sizes(diff: &git2::Diff<'_>) -> (outcome: Result<Vec<(u32, u32)>, git2::Error>) {
    let mut sizes: Vec<(u32, u32)> = Vec::new();
    diff.foreach(
        &mut |_delta, _progress| true,
        None,
        Some(&mut |_delta, hunk| note_hunk(&mut sizes, hunk.new_lines(), hunk.old_lines())),
        None,
    )?;
    Ok(sizes)
}

/// Calls git2's `Repository::revwalk`. Trusted; nothing is promised of the
/// outcome.
#[verifier::external_body]
pub(crate) fn new_walk<'repo>(repo: &'repo git2::Repository) -> (outcome: Result<
    git2::Revwalk<'repo>,
    git2::Error,
>) {
    repo.revwalk()
}

/// Calls git2's `Repository::find_branch` for a local branch. Trusted;
/// nothing is promised of the outcome.
#[verifier::external_body]
pub(crate) fn find_local_branch<'repo>(repo: &'repo git2::Repository, name: &str) -> (outcome:
    Result<git2::Branch<'repo>, git2::Error>) {
    repo.find_branch(name, git2::BranchType::Local)
}

/// Calls git2's `Branch::get` and `Reference::name` and copies the name,
/// which is absent where it is not UTF-8. Trusted; nothing is promised of
/// the name.
#[verifier::external_body]
pub(crate) fn branch_reference_name(branch: &git2::Branch<'_>) -> (name: Option<String>) {
    branch.get().name().map(|text| text.to_string())
}

/// Calls git2's `Revwalk::push_ref`. Trusted; nothing is promised of the
/// outcome.
#[verifier::external_body]
pub(crate) fn walk_from_reference(walk: &mut git2::Revwalk<'_>, reference: &str) -> (outcome:
    Result<(), git2::Error>) {
    walk.push_ref(reference)
}

/// Calls git2's `Revwalk::push_head`. Trusted; nothing is promised of the
/// outcome.
#[verifier::external_body]
pub(crate) fn walk_from_head(walk: &mut git2::Revwalk<'_>) -> (outcome: Result<(), git2::Error>) {
    walk.push_head()
}

/// Runs git2's `Revwalk` to its end and hands out the commit ids in the
/// order of the walk, or the first error. Trusted; nothing is promised of
/// the outcome.
#[verifier::external_body]
pub(crate) fn walk_commit_ids(walk: git2::Revwalk<'_>) -> (outcome: Result<
    Vec<git2::Oid>,
    git2::Error,
>) {
    walk.collect()
}

/// Calls git2's `Repository::branches` and hands out, for each branch in
/// the order of the listing, its `Branch::name`, absent where the name
/// cannot be had or is not UTF-8; or the first error of the listing.
/// Trusted; nothing is promised of the outcome.
#[verifier::external_body]
pub(crate) fn branch_names(repo: &git2::Repository, scope: BranchScope) -> (outcome: Result<
    Vec<Option<String>>,
    git2::Error,
>) {
    let filter = match scope {
        BranchScope::Local => Some(git2::BranchType::Local),
        BranchScope::Remote => Some(git2::BranchType::Remote),
        BranchScope::Both => None,
    };
    let mut names: Vec<Option<String>> = Vec::new();
    for item in repo.branches(filter)? {
        names.push(item?.0.name().ok().flatten().map(|text| text.to_string()));
    }
    Ok(names)
}

} // verus!
