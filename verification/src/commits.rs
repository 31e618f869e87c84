//! Counting the commits of a chunk.
//!
//! A [`CommitRecord`] holds what the counting reads of one commit: the
//! author's name, the commit time, and the line counts of the comparison with
//! each parent. A commit is counted when the contributor filter accepts its
//! author. The line counts of a commit are the largest counts over its
//! comparisons, taken for additions and deletions apart: for a root commit
//! that is its one comparison with the empty tree, for a commit with one
//! parent the comparison with that parent, and for a merge the elementwise
//! maximum over the parents. A comparison that failed counts no lines.

use vstd::prelude::*;
use vstd::multiset::*;
use crate::calendar::{commit_date, date_of, unknown_text};
use crate::errors::ChunkTaskError;
use crate::stats::{lemma_lines_concat, PartialStats, StatsModel};
use crate::text::text_equal;

verus! {

broadcast use group_multiset_axioms;

/// Lines added and deleted between two trees.
#[derive(Clone, Copy, Debug, PartialEq, Eq, Structural)]
pub struct LineChange {
    pub added: usize,
    pub deleted: usize,
}

/// The filter text that accepts every author.
pub open spec fn everyone() -> Seq<char> {
    "All"@
}

/// Whether the filter `contributor` accepts a commit by `author`.
pub open spec fn accepts(contributor: Seq<char>, author: Seq<char>) -> bool {
    contributor == everyone() || author == contributor
}

/// Whether the filter `contributor` accepts a commit by `author`: "All"
/// accepts everyone, any other text only the author of that name.
pub fn filter_accepts(contributor: &str, author: &str) -> (accepted: bool)
    ensures
        accepted == accepts(contributor@, author@),
{
    text_equal(contributor, "All") || text_equal(author, contributor)
}

/// The name under which a commit is attributed: the author's name, or
/// "Unknown" where the commit has none.
pub open spec fn author_text(name: Option<Seq<char>>) -> Seq<char> {
    match name {
        Some(text) => text,
        None => unknown_text(),
    }
}

/// The name under which a commit is attributed.
pub fn author_label(name: &Option<String>) -> (label: String)
    ensures
        label@ == author_text(name.deep_view()),
{
    match name {
        Some(text) => text.clone(),
        None => "Unknown".to_owned(),
    }
}

/// The lines that the hunks of one comparison add: the sum of their new
/// line counts.
pub open spec fn new_lines_in(hunks: Seq<(u32, u32)>) -> nat
    decreases hunks.len(),
{
    if hunks.len() == 0 {
        0
    } else {
        (new_lines_in(hunks.drop_last()) + hunks.last().0) as nat
    }
}

/// The lines that the hunks of one comparison delete: the sum of their old
/// line counts.
pub open spec fn old_lines_in(hunks: Seq<(u32, u32)>) -> nat
    decreases hunks.len(),
{
    if hunks.len() == 0 {
        0
    } else {
        (old_lines_in(hunks.drop_last()) + hunks.last().1) as nat
    }
}

/// The sums over a prefix of the hunks are no larger than over all of them.
pub proof fn lemma_hunks_grow(hunks: Seq<(u32, u32)>, k: int)
    requires
        0 <= k <= hunks.len(),
    ensures
        new_lines_in(hunks.take(k)) <= new_lines_in(hunks),
        old_lines_in(hunks.take(k)) <= old_lines_in(hunks),
    decreases hunks.len(),
{
    if k < hunks.len() {
        lemma_hunks_grow(hunks.drop_last(), k);
        assert(hunks.drop_last().take(k) =~= hunks.take(k));
    } else {
        assert(hunks.take(k) =~= hunks);
    }
}

/// Sums the hunks of one comparison, each given as (new lines, old lines).
/// Returns `None` where a sum does not fit the machine word.
pub fn sum_hunks(hunks: &Vec<(u32, u32)>) -> (change: Option<LineChange>)
    ensures
        change is Some <==> new_lines_in(hunks@) <= usize::MAX && old_lines_in(hunks@)
            <= usize::MAX,
        change matches Some(c) ==> c.added == new_lines_in(hunks@) && c.deleted == old_lines_in(
            hunks@,
        ),
{
    let mut added: usize = 0;
    let mut deleted: usize = 0;
    let mut i: usize = 0;
    assert(hunks@.take(0) =~= Seq::<(u32, u32)>::empty());
    while i < hunks.len()
        invariant
            0 <= i <= hunks@.len(),
            added == new_lines_in(hunks@.take(i as int)),
            deleted == old_lines_in(hunks@.take(i as int)),
        decreases hunks@.len() - i,
    {
        let (new_lines, old_lines) = hunks[i];
        proof {
            assert(hunks@.take(i + 1).drop_last() =~= hunks@.take(i as int));
            lemma_hunks_grow(hunks@, i + 1);
        }
        if new_lines as usize > usize::MAX - added || old_lines as usize > usize::MAX - deleted {
            return None;
        }
        added = added + new_lines as usize;
        deleted = deleted + old_lines as usize;
        i += 1;
    }
    assert(hunks@.take(i as int) =~= hunks@);
    Some(LineChange { added, deleted })
}

/// The lines that one comparison adds; none where it failed.
pub open spec fn added_by(diff: Option<LineChange>) -> nat {
    match diff {
        Some(change) => change.added as nat,
        None => 0,
    }
}

/// The lines that one comparison deletes; none where it failed.
pub open spec fn deleted_by(diff: Option<LineChange>) -> nat {
    match diff {
        Some(change) => change.deleted as nat,
        None => 0,
    }
}

/// `added` and `deleted` are the elementwise maxima of the comparisons: no
/// comparison exceeds them, and each is reached by a comparison or is zero.
pub open spec fn is_widest(diffs: Seq<Option<LineChange>>, added: nat, deleted: nat) -> bool {
    &&& forall|i: int| 0 <= i < diffs.len() ==> added_by(#[trigger] diffs[i]) <= added
    &&& forall|i: int| 0 <= i < diffs.len() ==> deleted_by(#[trigger] diffs[i]) <= deleted
    &&& (added == 0 || exists|i: int| 0 <= i < diffs.len() && added_by(#[trigger] diffs[i]) == added)
    &&& (deleted == 0 || exists|i: int|
        0 <= i < diffs.len() && deleted_by(#[trigger] diffs[i]) == deleted)
}

/// The largest number of lines added by any of the comparisons.
pub open spec fn widest_added(diffs: Seq<Option<LineChange>>) -> nat
    decreases diffs.len(),
{
    if diffs.len() == 0 {
        0
    } else if added_by(diffs.last()) >= widest_added(diffs.drop_last()) {
        added_by(diffs.last())
    } else {
        widest_added(diffs.drop_last())
    }
}

/// The largest number of lines deleted by any of the comparisons.
pub open spec fn widest_deleted(diffs: Seq<Option<LineChange>>) -> nat
    decreases diffs.len(),
{
    if diffs.len() == 0 {
        0
    } else if deleted_by(diffs.last()) >= widest_deleted(diffs.drop_last()) {
        deleted_by(diffs.last())
    } else {
        widest_deleted(diffs.drop_last())
    }
}

/// `widest_added` and `widest_deleted` are the elementwise maxima, and they
/// fit the machine word. With one comparison they are that comparison's
/// counts.
pub proof fn lemma_widest(diffs: Seq<Option<LineChange>>)
    ensures
        is_widest(diffs, widest_added(diffs), widest_deleted(diffs)),
        widest_added(diffs) <= usize::MAX,
        widest_deleted(diffs) <= usize::MAX,
        diffs.len() == 1 ==> widest_added(diffs) == added_by(diffs[0]) && widest_deleted(diffs)
            == deleted_by(diffs[0]),
    decreases diffs.len(),
{
    if diffs.len() > 0 {
        let front = diffs.drop_last();
        lemma_widest(front);
        assert forall|i: int| 0 <= i < diffs.len() implies added_by(#[trigger] diffs[i])
            <= widest_added(diffs) && deleted_by(diffs[i]) <= widest_deleted(diffs) by {
            if i < front.len() {
                assert(front[i] == diffs[i]);
            }
        }
        let added = widest_added(diffs);
        if added != 0 {
            if added == added_by(diffs.last()) {
                assert(added_by(diffs[diffs.len() - 1]) == added);
            } else {
                let i = choose|i: int| 0 <= i < front.len() && added_by(#[trigger] front[i]) == added;
                assert(added_by(diffs[i]) == added);
            }
        }
        let deleted = widest_deleted(diffs);
        if deleted != 0 {
            if deleted == deleted_by(diffs.last()) {
                assert(deleted_by(diffs[diffs.len() - 1]) == deleted);
            } else {
                let i = choose|i: int|
                    0 <= i < front.len() && deleted_by(#[trigger] front[i]) == deleted;
                assert(deleted_by(diffs[i]) == deleted);
            }
        }
        if diffs.len() == 1 {
            assert(front.len() == 0);
        }
    }
}

/// The elementwise maxima of a sequence of comparisons are unique.
pub proof fn lemma_widest_unique(
    diffs: Seq<Option<LineChange>>,
    added: nat,
    deleted: nat,
)
    requires
        is_widest(diffs, added, deleted),
    ensures
        added == widest_added(diffs),
        deleted == widest_deleted(diffs),
{
    lemma_widest(diffs);
}

/// The line counts of a commit from its comparisons, one per parent (for a
/// root commit the one with the empty tree): the elementwise maximum, where
/// a failed comparison counts no lines.
pub fn commit_line_stats(diffs: &Vec<Option<LineChange>>) -> (change: LineChange)
    ensures
        is_widest(diffs@, change.added as nat, change.deleted as nat),
        change.added == widest_added(diffs@),
        change.deleted == widest_deleted(diffs@),
        diffs@.len() == 1 ==> change.added == added_by(diffs@[0]) && change.deleted == deleted_by(
            diffs@[0],
        ),
{
    let mut added: usize = 0;
    let mut deleted: usize = 0;
    let mut i: usize = 0;
    assert(diffs@.take(0) =~= Seq::<Option<LineChange>>::empty());
    while i < diffs.len()
        invariant
            0 <= i <= diffs@.len(),
            added == widest_added(diffs@.take(i as int)),
            deleted == widest_deleted(diffs@.take(i as int)),
        decreases diffs@.len() - i,
    {
        proof {
            assert(diffs@.take(i + 1).drop_last() =~= diffs@.take(i as int));
        }
        match diffs[i] {
            Some(change) => {
                if change.added >= added {
                    added = change.added;
                }
                if change.deleted >= deleted {
                    deleted = change.deleted;
                }
            },
            None => {},
        }
        i += 1;
    }
    proof {
        assert(diffs@.take(i as int) =~= diffs@);
        lemma_widest(diffs@);
    }
    LineChange { added, deleted }
}

/// What the counting reads of one commit.
#[derive(Debug)]
pub struct CommitRecord {
    /// The author's name, where the commit has one.
    pub author: Option<String>,
    /// The commit time in seconds after the Unix epoch.
    pub seconds: i64,
    /// The line counts of the comparison with each parent, in the order of
    /// the parents, `None` for one that failed. A root commit has its one
    /// comparison with the empty tree; a commit whose own tree cannot be
    /// read has none.
    pub diffs: Vec<Option<LineChange>>,
}

/// A commit as the counting sees it.
pub struct CommitModel {
    pub author: Seq<char>,
    pub date: Seq<char>,
    pub added: nat,
    pub deleted: nat,
}

impl View for CommitRecord {
    type V = CommitModel;

    open spec fn view(&self) -> CommitModel {
        CommitModel {
            author: author_text(self.author.deep_view()),
            date: date_of(self.seconds),
            added: widest_added(self.diffs@),
            deleted: widest_deleted(self.diffs@),
        }
    }
}

/// The models of a sequence of records.
pub open spec fn commits_of(records: Seq<CommitRecord>) -> Seq<CommitModel> {
    Seq::new(records.len(), |i: int| records[i]@)
}

/// What counting `commits` in order under the filter `contributor` gives:
/// each accepted commit adds a log line and a name, the others nothing.
pub open spec fn chunk_stats(commits: Seq<CommitModel>, contributor: Seq<char>) -> StatsModel
    decreases commits.len(),
{
    if commits.len() == 0 {
        StatsModel::empty()
    } else {
        let before = chunk_stats(commits.drop_last(), contributor);
        let commit = commits.last();
        if accepts(contributor, commit.author) {
            before.counted(commit.author, commit.date, commit.added, commit.deleted)
        } else {
            before
        }
    }
}

/// What is counted has one author for each log line.
pub proof fn lemma_chunk_stats_balanced(commits: Seq<CommitModel>, contributor: Seq<char>)
    ensures
        chunk_stats(commits, contributor).balanced(),
        chunk_stats(commits, contributor).commit_count() <= commits.len(),
    decreases commits.len(),
{
    if commits.len() > 0 {
        lemma_chunk_stats_balanced(commits.drop_last(), contributor);
    }
}

/// Counting a sequence of commits is counting its front part, then its back
/// part, and merging the two.
pub proof fn lemma_chunk_stats_concat(
    front: Seq<CommitModel>,
    back: Seq<CommitModel>,
    contributor: Seq<char>,
)
    ensures
        chunk_stats(front + back, contributor) == chunk_stats(front, contributor).merge(
            chunk_stats(back, contributor),
        ),
    decreases back.len(),
{
    let whole = chunk_stats(front + back, contributor);
    let merged = chunk_stats(front, contributor).merge(chunk_stats(back, contributor));
    if back.len() == 0 {
        assert(front + back =~= front);
        assert(merged.log =~= whole.log);
        assert(merged.authors =~= whole.authors);
    } else {
        lemma_chunk_stats_concat(front, back.drop_last(), contributor);
        assert((front + back).drop_last() =~= front + back.drop_last());
        assert(merged.log =~= whole.log);
        assert(merged.authors =~= whole.authors);
    }
}

/// Counting more commits never lowers the count or the totals: where a
/// prefix does not fit the machine word, the whole does not.
pub proof fn lemma_chunk_stats_grow(commits: Seq<CommitModel>, contributor: Seq<char>, k: int)
    requires
        0 <= k <= commits.len(),
    ensures
        chunk_stats(commits, contributor).fits() ==> chunk_stats(
            commits.take(k),
            contributor,
        ).fits(),
{
    assert(commits =~= commits.take(k) + commits.skip(k));
    lemma_chunk_stats_concat(commits.take(k), commits.skip(k), contributor);
    lemma_lines_concat(
        chunk_stats(commits.take(k), contributor).log,
        chunk_stats(commits.skip(k), contributor).log,
    );
}

/// Counts the commits of a chunk in order under the filter `contributor`.
/// Fails where the commit count or a line total does not fit the machine
/// word, and only there.
pub fn process_records(records: &Vec<CommitRecord>, contributor: &str) -> (outcome: Result<
    PartialStats,
    ChunkTaskError,
>)
    ensures
        outcome is Ok <==> chunk_stats(commits_of(records@), contributor@).fits(),
        outcome matches Ok(stats) ==> stats.wf() && stats@ == chunk_stats(
            commits_of(records@),
            contributor@,
        ),
        outcome matches Err(e) ==> e is TotalsOverflow,
{
    let ghost commits = commits_of(records@);
    let mut stats = PartialStats::new();
    let mut i: usize = 0;
    assert(commits.take(0) =~= Seq::<CommitModel>::empty());
    while i < records.len()
        invariant
            0 <= i <= records@.len(),
            commits == commits_of(records@),
            stats.wf(),
            stats@ == chunk_stats(commits.take(i as int), contributor@),
        decreases records@.len() - i,
    {
        let record = &records[i];
        proof {
            assert(commits.take(i + 1).drop_last() =~= commits.take(i as int));
            assert(commits.take(i + 1).last() == record@);
        }
        if !count_record(&mut stats, record, contributor) {
            proof {
                lemma_chunk_stats_grow(commits, contributor@, i + 1);
            }
            return Err(ChunkTaskError::TotalsOverflow);
        }
        i += 1;
    }
    proof {
        assert(commits.take(i as int) =~= commits);
        stats.lemma_wf();
    }
    Ok(stats)
}

/// The model after `commit` was offered to the counting under the filter
/// `contributor`.
pub open spec fn offered(
    before: StatsModel,
    commit: CommitModel,
    contributor: Seq<char>,
) -> StatsModel {
    if accepts(contributor, commit.author) {
        before.counted(commit.author, commit.date, commit.added, commit.deleted)
    } else {
        before
    }
}

/// Offers one commit to the counting: it is counted where the filter
/// accepts its author, and skipped otherwise. Returns `false`, with the
/// aggregate unchanged, where counting it would not fit the machine word.
pub fn count_record(stats: &mut PartialStats, record: &CommitRecord, contributor: &str) -> (done:
    bool)
    requires
        old(stats).wf(),
    ensures
        final(stats).wf(),
        done == offered(old(stats)@, record@, contributor@).fits(),
        done ==> final(stats)@ == offered(old(stats)@, record@, contributor@),
        !done ==> final(stats)@ == old(stats)@,
{
    let author = author_label(&record.author);
    proof {
        stats.lemma_wf();
    }
    if !filter_accepts(contributor, author.as_str()) {
        return true;
    }
    let change = commit_line_stats(&record.diffs);
    let ghost after = stats@.counted(
        record@.author,
        record@.date,
        change.added as nat,
        change.deleted as nat,
    );
    proof {
        let probe = stats@.counted(
            Seq::empty(),
            Seq::empty(),
            change.added as nat,
            change.deleted as nat,
        );
        assert(after.log.drop_last() =~= stats@.log);
        assert(probe.log.drop_last() =~= stats@.log);
    }
    if !stats.can_count(change.added, change.deleted) {
        return false;
    }
    let date = commit_date(record.seconds);
    stats.count_commit(author.as_str(), date, change.added, change.deleted);
    true
}

} // verus!
