//! Partial statistics and the way they combine.
//!
//! A [`PartialStats`] is what one worker has counted. Its model, a
//! [`StatsModel`], is the activity log in the order of counting and the
//! multiset of author names; the commit count and the line totals follow from
//! the log. Two models merge by concatenating the logs and adding the
//! multisets, so merging is associative, has the empty model as its identity,
//! and commutes in everything but the order of the log.

use vstd::prelude::*;
use vstd::multiset::*;
use crate::tally::Tally;

verus! {

broadcast use group_multiset_axioms;

/// One line of an activity log: a date, lines added, lines deleted.
pub type LogLine = (Seq<char>, nat, nat);

/// The model of a sequence of activity entries.
pub open spec fn log_of(entries: Seq<(String, usize, usize)>) -> Seq<LogLine> {
    Seq::new(entries.len(), |i: int| (entries[i].0@, entries[i].1 as nat, entries[i].2 as nat))
}

/// The lines added over a whole log.
pub open spec fn added_in(log: Seq<LogLine>) -> nat
    decreases log.len(),
{
    if log.len() == 0 {
        0
    } else {
        added_in(log.drop_last()) + log.last().1
    }
}

/// The lines deleted over a whole log.
pub open spec fn deleted_in(log: Seq<LogLine>) -> nat
    decreases log.len(),
{
    if log.len() == 0 {
        0
    } else {
        deleted_in(log.drop_last()) + log.last().2
    }
}

/// The line totals of two logs, one after the other, are the sums of theirs.
pub proof fn lemma_lines_concat(a: Seq<LogLine>, b: Seq<LogLine>)
    ensures
        added_in(a + b) == added_in(a) + added_in(b),
        deleted_in(a + b) == deleted_in(a) + deleted_in(b),
    decreases b.len(),
{
    if b.len() == 0 {
        assert(a + b =~= a);
    } else {
        lemma_lines_concat(a, b.drop_last());
        assert((a + b).drop_last() =~= a + b.drop_last());
    }
}

/// Taking one line out of a log lowers the totals by that line.
pub proof fn lemma_lines_remove(log: Seq<LogLine>, i: int)
    requires
        0 <= i < log.len(),
    ensures
        added_in(log) == added_in(log.remove(i)) + log[i].1,
        deleted_in(log) == deleted_in(log.remove(i)) + log[i].2,
{
    let head = log.take(i);
    let tail = log.skip(i + 1);
    assert(log =~= head + seq![log[i]] + tail);
    assert(log.remove(i) =~= head + tail);
    lemma_lines_concat(head + seq![log[i]], tail);
    lemma_lines_concat(head, seq![log[i]]);
    lemma_lines_concat(head, tail);
    assert(seq![log[i]].drop_last() =~= Seq::<LogLine>::empty());
    assert(added_in(seq![log[i]]) == added_in(Seq::<LogLine>::empty()) + log[i].1);
    assert(deleted_in(seq![log[i]]) == deleted_in(Seq::<LogLine>::empty()) + log[i].2);
}

/// The line totals depend on the lines of a log, not on their order.
pub proof fn lemma_lines_permutation(a: Seq<LogLine>, b: Seq<LogLine>)
    requires
        a.to_multiset() == b.to_multiset(),
    ensures
        added_in(a) == added_in(b),
        deleted_in(a) == deleted_in(b),
    decreases a.len(),
{
    broadcast use vstd::seq_lib::group_to_multiset_ensures;

    a.to_multiset_ensures();
    b.to_multiset_ensures();
    if a.len() == 0 {
        assert(b.len() == 0);
    } else {
        let x = a.last();
        assert(a.contains(x));
        assert(b.to_multiset().count(x) > 0);
        assert(b.contains(x));
        let j = choose|j: int| 0 <= j < b.len() && b[j] == x;
        assert(a.drop_last() =~= a.remove(a.len() - 1));
        assert(a.drop_last().to_multiset() =~= a.to_multiset().remove(x));
        assert(b.remove(j).to_multiset() =~= b.to_multiset().remove(x));
        lemma_lines_permutation(a.drop_last(), b.remove(j));
        lemma_lines_remove(b, j);
    }
}

/// What has been counted: the activity log and the authors' names.
pub struct StatsModel {
    pub log: Seq<LogLine>,
    pub authors: Multiset<Seq<char>>,
}

impl StatsModel {
    /// Nothing counted.
    pub open spec fn empty() -> StatsModel {
        StatsModel { log: Seq::empty(), authors: Multiset::empty() }
    }

    /// The number of commits counted.
    pub open spec fn commit_count(self) -> nat {
        self.log.len()
    }

    /// The lines added by the commits counted.
    pub open spec fn lines_added(self) -> nat {
        added_in(self.log)
    }

    /// The lines deleted by the commits counted.
    pub open spec fn lines_deleted(self) -> nat {
        deleted_in(self.log)
    }

    /// Every commit counted has one author.
    pub open spec fn balanced(self) -> bool {
        self.authors.len() == self.log.len()
    }

    /// The count and the totals fit the machine word.
    pub open spec fn fits(self) -> bool {
        &&& self.commit_count() <= usize::MAX
        &&& self.lines_added() <= usize::MAX
        &&& self.lines_deleted() <= usize::MAX
    }

    /// This model after one more commit was counted.
    pub open spec fn counted(
        self,
        author: Seq<char>,
        date: Seq<char>,
        added: nat,
        deleted: nat,
    ) -> StatsModel {
        StatsModel { log: self.log.push((date, added, deleted)), authors: self.authors.insert(author) }
    }

    /// This model followed by `other`.
    pub open spec fn merge(self, other: StatsModel) -> StatsModel {
        StatsModel { log: self.log + other.log, authors: self.authors.add(other.authors) }
    }

    /// The same commit count, line totals, author tallies and log lines;
    /// the order of the log may differ.
    pub open spec fn same_totals(self, other: StatsModel) -> bool {
        &&& self.commit_count() == other.commit_count()
        &&& self.lines_added() == other.lines_added()
        &&& self.lines_deleted() == other.lines_deleted()
        &&& self.authors == other.authors
        &&& self.log.to_multiset() == other.log.to_multiset()
    }
}

/// All the models of `parts` merged from left to right.
pub open spec fn merge_all(parts: Seq<StatsModel>) -> StatsModel
    decreases parts.len(),
{
    if parts.len() == 0 {
        StatsModel::empty()
    } else {
        merge_all(parts.drop_last()).merge(parts.last())
    }
}

/// A partial aggregate: what one worker has counted.
#[derive(Debug)]
pub struct PartialStats {
    commit_count: usize,
    lines_added: usize,
    lines_deleted: usize,
    activity_log: Vec<(String, usize, usize)>,
    author_counts: Tally,
}

impl View for PartialStats {
    type V = StatsModel;

    closed spec fn view(&self) -> StatsModel {
        StatsModel { log: log_of(self.activity_log@), authors: self.author_counts@ }
    }
}

impl PartialStats {
    /// The stored count and totals are those of the log, and the tally holds
    /// one name for each log line.
    pub closed spec fn wf(&self) -> bool {
        &&& self.author_counts.wf()
        &&& self.commit_count == self.activity_log@.len()
        &&& self.author_counts@.len() == self.activity_log@.len()
        &&& self.lines_added as nat == added_in(log_of(self.activity_log@))
        &&& self.lines_deleted as nat == deleted_in(log_of(self.activity_log@))
    }

    /// A well-formed aggregate is balanced and fits the machine word.
    pub proof fn lemma_wf(&self)
        requires
            self.wf(),
        ensures
            self@.balanced(),
            self@.fits(),
    {
    }

    /// An aggregate in which nothing was counted.
    pub fn new() -> (stats: PartialStats)
        ensures
            stats.wf(),
            stats@ == StatsModel::empty(),
    {
        let stats = PartialStats {
            commit_count: 0,
            lines_added: 0,
            lines_deleted: 0,
            activity_log: Vec::new(),
            author_counts: Tally::new(),
        };
        assert(log_of(stats.activity_log@) =~= Seq::<LogLine>::empty());
        stats
    }

    /// The number of commits counted.
    pub fn commit_count(&self) -> (count: usize)
        requires
            self.wf(),
        ensures
            count == self@.commit_count(),
    {
        self.commit_count
    }

    /// The lines added by the commits counted.
    pub fn lines_added(&self) -> (lines: usize)
        requires
            self.wf(),
        ensures
            lines == self@.lines_added(),
    {
        self.lines_added
    }

    /// The lines deleted by the commits counted.
    pub fn lines_deleted(&self) -> (lines: usize)
        requires
            self.wf(),
        ensures
            lines == self@.lines_deleted(),
    {
        self.lines_deleted
    }

    /// The activity log, in the order of counting.
    pub fn activity_log(&self) -> (log: &Vec<(String, usize, usize)>)
        requires
            self.wf(),
        ensures
            log_of(log@) == self@.log,
    {
        &self.activity_log
    }

    /// How many commits each author has.
    pub fn author_counts(&self) -> (tally: &Tally)
        requires
            self.wf(),
        ensures
            tally.wf(),
            tally@ == self@.authors,
    {
        &self.author_counts
    }

    /// Whether one more commit with these line counts can be counted.
    pub fn can_count(&self, added: usize, deleted: usize) -> (fits: bool)
        requires
            self.wf(),
        ensures
            fits == self@.counted(Seq::empty(), Seq::empty(), added as nat, deleted as nat).fits(),
    {
        proof {
            assert(self@.log.push((Seq::<char>::empty(), added as nat, deleted as nat)).drop_last()
                =~= self@.log);
        }
        self.commit_count < usize::MAX && added <= usize::MAX - self.lines_added && deleted
            <= usize::MAX - self.lines_deleted
    }

    /// Counts one commit: a log line is appended, the author's tally goes up
    /// by one, and the totals grow by the commit's line counts.
    pub fn count_commit(&mut self, author: &str, date: String, added: usize, deleted: usize)
        requires
            old(self).wf(),
            old(self)@.counted(author@, date@, added as nat, deleted as nat).fits(),
        ensures
            final(self).wf(),
            final(self)@ == old(self)@.counted(author@, date@, added as nat, deleted as nat),
    {
        let ghost log = log_of(self.activity_log@);
        let ghost line = (date@, added as nat, deleted as nat);
        proof {
            assert(log.push(line).drop_last() =~= log);
        }
        self.author_counts.record(author);
        self.activity_log.push((date, added, deleted));
        self.commit_count = self.commit_count + 1;
        self.lines_added = self.lines_added + added;
        self.lines_deleted = self.lines_deleted + deleted;
        assert(log_of(self.activity_log@) =~= log.push(line));
    }

    /// Whether `other` can be merged into this aggregate.
    pub fn can_merge(&self, other: &PartialStats) -> (fits: bool)
        requires
            self.wf(),
            other.wf(),
        ensures
            fits == self@.merge(other@).fits(),
    {
        proof {
            lemma_lines_concat(self@.log, other@.log);
        }
        other.commit_count <= usize::MAX - self.commit_count && other.lines_added <= usize::MAX
            - self.lines_added && other.lines_deleted <= usize::MAX - self.lines_deleted
    }

    /// Merges `other` into this aggregate: the counts and totals add up, the
    /// log of `other` follows this log, and the author tallies are summed
    /// name by name.
    pub fn merge(&mut self, other: PartialStats)
        requires
            old(self).wf(),
            other.wf(),
            old(self)@.merge(other@).fits(),
        ensures
            final(self).wf(),
            final(self)@ == old(self)@.merge(other@),
    {
        let ghost log = log_of(self.activity_log@);
        let ghost more = log_of(other.activity_log@);
        proof {
            lemma_lines_concat(log, more);
        }
        let PartialStats { commit_count, lines_added, lines_deleted, activity_log, author_counts } =
            other;
        let mut tail = activity_log;
        self.author_counts.absorb(&author_counts);
        self.activity_log.append(&mut tail);
        self.commit_count = self.commit_count + commit_count;
        self.lines_added = self.lines_added + lines_added;
        self.lines_deleted = self.lines_deleted + lines_deleted;
        assert(log_of(self.activity_log@) =~= log + more);
    }
}

/// Merges partial aggregates from left to right. Returns `None` where the
/// merged count or totals would not fit the machine word.
pub fn merge_partials(parts: Vec<PartialStats>) -> (merged: Option<PartialStats>)
    requires
        forall|i: int| 0 <= i < parts@.len() ==> (#[trigger] parts@[i]).wf(),
    ensures
        merged is Some <==> merge_all(models_of(parts@)).fits(),
        merged matches Some(stats) ==> stats.wf() && stats@ == merge_all(models_of(parts@)),
{
    let ghost all = parts@;
    let ghost models = models_of(parts@);
    let mut merged = PartialStats::new();
    assert(models.take(0) =~= Seq::<StatsModel>::empty());
    for part in iter: parts
        invariant
            iter.seq() == all,
            models == models_of(all),
            forall|i: int| 0 <= i < all.len() ==> (#[trigger] all[i]).wf(),
            merged.wf(),
            merged@ == merge_all(models.take(iter.index() as int)),
    {
        let ghost done = iter.index() as int;
        proof {
            assert(models[done] == part@);
            assert(models.take(done + 1).drop_last() =~= models.take(done));
        }
        if !merged.can_merge(&part) {
            proof {
                lemma_merge_all_grows(models, done + 1);
            }
            return None;
        }
        merged.merge(part);
    }
    assert(models.take(models.len() as int) =~= models);
    Some(merged)
}

/// What the chunks that succeeded give, merged in their order. A chunk that
/// failed (`None`) is left out, and so is one whose counts no longer fit
/// the machine word beside those merged before it.
pub open spec fn surviving(outcomes: Seq<Option<StatsModel>>) -> StatsModel
    decreases outcomes.len(),
{
    if outcomes.len() == 0 {
        StatsModel::empty()
    } else {
        let before = surviving(outcomes.drop_last());
        match outcomes.last() {
            Some(part) => if before.merge(part).fits() {
                before.merge(part)
            } else {
                before
            },
            None => before,
        }
    }
}

/// The number of chunks that `surviving` leaves out.
pub open spec fn dropped(outcomes: Seq<Option<StatsModel>>) -> nat
    decreases outcomes.len(),
{
    if outcomes.len() == 0 {
        0
    } else {
        let before = dropped(outcomes.drop_last());
        match outcomes.last() {
            Some(part) => if surviving(outcomes.drop_last()).merge(part).fits() {
                before
            } else {
                before + 1
            },
            None => before + 1,
        }
    }
}

/// The models of a sequence of outcomes.
pub open spec fn outcome_models(outcomes: Seq<Option<PartialStats>>) -> Seq<Option<StatsModel>> {
    Seq::new(
        outcomes.len(),
        |i: int|
            match outcomes[i] {
                Some(part) => Some(part@),
                None => None,
            },
    )
}

/// Where every chunk succeeded and all counts fit, nothing is left out:
/// what survives is all parts merged.
pub proof fn lemma_all_survive(parts: Seq<StatsModel>)
    requires
        merge_all(parts).fits(),
    ensures
        surviving(Seq::new(parts.len(), |i: int| Some(parts[i]))) == merge_all(parts),
        dropped(Seq::new(parts.len(), |i: int| Some(parts[i]))) == 0,
    decreases parts.len(),
{
    let outcomes = Seq::new(parts.len(), |i: int| Some(parts[i]));
    if parts.len() > 0 {
        let front = parts.drop_last();
        lemma_merge_all_grows(parts, parts.len() - 1);
        assert(parts.take(parts.len() - 1) =~= front);
        lemma_all_survive(front);
        assert(outcomes.drop_last() =~= Seq::new(front.len(), |i: int| Some(front[i])));
        assert(outcomes.last() == Some(parts.last()));
    }
}

/// What survives has no more commits than the chunks that succeeded
/// together, has one author for each commit where the parts have, and
/// fits the machine word; no more chunks are dropped than there are.
pub proof fn lemma_surviving(outcomes: Seq<Option<StatsModel>>)
    requires
        forall|i: int|
            0 <= i < outcomes.len() ==> (#[trigger] outcomes[i] matches Some(part)
                ==> part.balanced()),
    ensures
        surviving(outcomes).fits(),
        surviving(outcomes).balanced(),
        surviving(outcomes).commit_count() <= counted_in(outcomes),
        dropped(outcomes) <= outcomes.len(),
    decreases outcomes.len(),
{
    if outcomes.len() > 0 {
        let front = outcomes.drop_last();
        assert forall|i: int| 0 <= i < front.len() implies (#[trigger] front[i] matches Some(part)
            ==> part.balanced()) by {
            assert(front[i] == outcomes[i]);
        }
        lemma_surviving(front);
        assert(outcomes[outcomes.len() - 1] == outcomes.last());
    }
}

/// The commits that the chunks that succeeded have counted together.
pub open spec fn counted_in(outcomes: Seq<Option<StatsModel>>) -> nat
    decreases outcomes.len(),
{
    if outcomes.len() == 0 {
        0
    } else {
        counted_in(outcomes.drop_last()) + match outcomes.last() {
            Some(part) => part.commit_count(),
            None => 0,
        }
    }
}

/// Merges what the chunks have given, in their order. A chunk that failed
/// is left out and counted as dropped, and so is one whose counts no
/// longer fit the machine word: the failure of a chunk never fails the
/// whole.
pub fn merge_surviving(outcomes: Vec<Option<PartialStats>>) -> (merged: (PartialStats, usize))
    requires
        forall|i: int|
            0 <= i < outcomes@.len() ==> (#[trigger] outcomes@[i] matches Some(part)
                ==> part.wf()),
    ensures
        merged.0.wf(),
        merged.0@ == surviving(outcome_models(outcomes@)),
        merged.1 == dropped(outcome_models(outcomes@)),
{
    let ghost all = outcomes@;
    let ghost models = outcome_models(outcomes@);
    let mut stats = PartialStats::new();
    let mut left_out: usize = 0;
    let count = outcomes.len();
    assert(models.take(0) =~= Seq::<Option<StatsModel>>::empty());
    for outcome in iter: outcomes
        invariant
            iter.seq() == all,
            all.len() == count,
            models == outcome_models(all),
            forall|i: int|
                0 <= i < all.len() ==> (#[trigger] all[i] matches Some(part) ==> part.wf()),
            stats.wf(),
            stats@ == surviving(models.take(iter.index() as int)),
            left_out == dropped(models.take(iter.index() as int)),
            left_out <= iter.index(),
    {
        let ghost done = iter.index() as int;
        proof {
            assert(all[done] == outcome);
            assert(models.take(done + 1).drop_last() =~= models.take(done));
            assert(models.take(done + 1).last() == models[done]);
        }
        match outcome {
            Some(part) => {
                if stats.can_merge(&part) {
                    stats.merge(part);
                } else {
                    left_out = left_out + 1;
                }
            },
            None => {
                left_out = left_out + 1;
            },
        }
    }
    assert(models.take(models.len() as int) =~= models);
    (stats, left_out)
}

/// The models of a sequence of aggregates.
pub open spec fn models_of(parts: Seq<PartialStats>) -> Seq<StatsModel> {
    Seq::new(parts.len(), |i: int| parts[i]@)
}

/// Merging more parts never lowers the count or the totals: where a prefix
/// does not fit the machine word, the whole does not.
pub proof fn lemma_merge_all_grows(parts: Seq<StatsModel>, k: int)
    requires
        0 <= k <= parts.len(),
    ensures
        merge_all(parts.take(k)).commit_count() <= merge_all(parts).commit_count(),
        merge_all(parts.take(k)).lines_added() <= merge_all(parts).lines_added(),
        merge_all(parts.take(k)).lines_deleted() <= merge_all(parts).lines_deleted(),
        merge_all(parts).fits() ==> merge_all(parts.take(k)).fits(),
    decreases parts.len(),
{
    if k < parts.len() {
        lemma_merge_all_grows(parts.drop_last(), k);
        assert(parts.drop_last().take(k) =~= parts.take(k));
        lemma_lines_concat(merge_all(parts.drop_last()).log, parts.last().log);
    } else {
        assert(parts.take(k) =~= parts);
    }
}

} // verus!
