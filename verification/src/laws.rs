//! What holds of counting and merging, whatever the commits.
//!
//! Counting the chunks of a sequence of commits and merging the counts gives
//! what counting the whole sequence gives. Merging in another order changes
//! only the order of the activity log. Counting for everyone gives the
//! merged counts of each author counted alone.

use vstd::prelude::*;
use vstd::multiset::*;
use vstd::seq_lib::*;
use crate::commits::{accepts, chunk_stats, everyone, lemma_chunk_stats_concat, CommitModel};
use crate::schedule::{is_plan, lemma_plan_covers, ChunkTask};
use crate::stats::{lemma_lines_permutation, merge_all, LogLine, StatsModel};

verus! {

broadcast use group_multiset_axioms;

/// The empty model is the identity of merging.
pub proof fn lemma_merge_identity(a: StatsModel)
    ensures
        StatsModel::empty().merge(a) == a,
        a.merge(StatsModel::empty()) == a,
{
    assert(StatsModel::empty().merge(a).log =~= a.log);
    assert(StatsModel::empty().merge(a).authors =~= a.authors);
    assert(a.merge(StatsModel::empty()).log =~= a.log);
    assert(a.merge(StatsModel::empty()).authors =~= a.authors);
}

/// Merging is associative.
pub proof fn lemma_merge_associative(a: StatsModel, b: StatsModel, c: StatsModel)
    ensures
        a.merge(b).merge(c) == a.merge(b.merge(c)),
{
    assert(a.merge(b).merge(c).log =~= a.merge(b.merge(c)).log);
    assert(a.merge(b).merge(c).authors =~= a.merge(b.merge(c)).authors);
}

/// Merging commutes in the totals, the counts and the author tallies: the
/// two orders differ only in the order of the activity log.
pub proof fn lemma_merge_commutative(a: StatsModel, b: StatsModel)
    ensures
        a.merge(b).same_totals(b.merge(a)),
{
    lemma_content_merge(a, b);
    lemma_content_merge(b, a);
    assert(log_lines(a.merge(b)) =~= log_lines(b.merge(a)));
    assert(a.merge(b).authors =~= b.merge(a).authors);
    lemma_same_content(a.merge(b), b.merge(a));
}

/// The lines of the activity log of a model, without their order.
pub open spec fn log_lines(stats: StatsModel) -> Multiset<LogLine> {
    stats.log.to_multiset()
}

/// Two models hold the same authors and the same log lines.
pub open spec fn same_content(a: StatsModel, b: StatsModel) -> bool {
    a.authors == b.authors && log_lines(a) == log_lines(b)
}

/// Models with the same authors and the same log lines have the same
/// commit count and line totals.
pub proof fn lemma_same_content(a: StatsModel, b: StatsModel)
    requires
        same_content(a, b),
    ensures
        a.same_totals(b),
{
    a.log.to_multiset_ensures();
    b.log.to_multiset_ensures();
    lemma_lines_permutation(a.log, b.log);
}

/// The content of a merged model is the sum of the contents.
pub proof fn lemma_content_merge(a: StatsModel, b: StatsModel)
    ensures
        log_lines(a.merge(b)) == log_lines(a).add(log_lines(b)),
        a.merge(b).authors == a.authors.add(b.authors),
{
    lemma_multiset_commutative(a.log, b.log);
}

/// Counting a commit adds its author and its log line to the content.
pub proof fn lemma_content_counted(
    a: StatsModel,
    author: Seq<char>,
    date: Seq<char>,
    added: nat,
    deleted: nat,
)
    ensures
        log_lines(a.counted(author, date, added, deleted)) == log_lines(a).insert(
            (date, added, deleted),
        ),
        a.counted(author, date, added, deleted).authors == a.authors.insert(author),
{
    a.log.to_multiset_ensures();
}

/// Taking one part out of a sequence and merging it last gives the same
/// content.
pub proof fn lemma_merge_all_remove(parts: Seq<StatsModel>, j: int)
    requires
        0 <= j < parts.len(),
    ensures
        same_content(merge_all(parts), merge_all(parts.remove(j)).merge(parts[j])),
    decreases parts.len(),
{
    let n = parts.len() as int;
    if j == n - 1 {
        assert(parts.remove(j) =~= parts.drop_last());
    } else {
        let front = parts.drop_last();
        let last = parts.last();
        lemma_merge_all_remove(front, j);
        assert(parts.remove(j).drop_last() =~= front.remove(j));
        assert(parts.remove(j).last() == last);
        let rest = merge_all(front.remove(j));
        let x = parts[j];
        assert(front[j] == x);
        lemma_content_merge(merge_all(front), last);
        lemma_content_merge(rest, x);
        lemma_content_merge(rest.merge(x), last);
        lemma_content_merge(rest, last);
        lemma_content_merge(rest.merge(last), x);
        assert(log_lines(merge_all(parts)) =~= log_lines(
            merge_all(parts.remove(j)).merge(parts[j]),
        ));
        assert(merge_all(parts).authors =~= merge_all(parts.remove(j)).merge(parts[j]).authors);
    }
}

/// Merging partial results in any order gives the same totals, counts and
/// author tallies: where `shuffled` holds the parts of `parts` in another
/// order, the merged models differ only in the order of the activity log.
pub proof fn lemma_merge_order_independent(parts: Seq<StatsModel>, shuffled: Seq<StatsModel>)
    requires
        parts.to_multiset() == shuffled.to_multiset(),
    ensures
        merge_all(parts).same_totals(merge_all(shuffled)),
        same_content(merge_all(parts), merge_all(shuffled)),
    decreases parts.len(),
{
    broadcast use group_to_multiset_ensures;

    parts.to_multiset_ensures();
    shuffled.to_multiset_ensures();
    if parts.len() == 0 {
        assert(shuffled.len() == 0);
    } else {
        let x = parts.last();
        assert(parts.contains(x));
        assert(shuffled.to_multiset().count(x) > 0);
        assert(shuffled.contains(x));
        let j = choose|j: int| 0 <= j < shuffled.len() && shuffled[j] == x;
        assert(parts.drop_last() =~= parts.remove(parts.len() - 1));
        assert(parts.drop_last().to_multiset() =~= parts.to_multiset().remove(x));
        assert(shuffled.remove(j).to_multiset() =~= shuffled.to_multiset().remove(x));
        lemma_merge_order_independent(parts.drop_last(), shuffled.remove(j));
        lemma_merge_all_remove(shuffled, j);
        lemma_content_merge(merge_all(parts.drop_last()), x);
        lemma_content_merge(merge_all(shuffled.remove(j)), x);
    }
    lemma_same_content(merge_all(parts), merge_all(shuffled));
}

/// The chunks of a partition, one after the other.
pub open spec fn joined(chunks: Seq<Seq<CommitModel>>) -> Seq<CommitModel>
    decreases chunks.len(),
{
    if chunks.len() == 0 {
        Seq::empty()
    } else {
        joined(chunks.drop_last()) + chunks.last()
    }
}

/// What counting each chunk alone gives, in the order of the chunks.
pub open spec fn counted_apart(chunks: Seq<Seq<CommitModel>>, contributor: Seq<char>) -> Seq<
    StatsModel,
> {
    Seq::new(chunks.len(), |i: int| chunk_stats(chunks[i], contributor))
}

/// However a sequence of commits is cut into contiguous chunks, counting
/// the chunks apart and merging the counts in the order of the chunks
/// gives exactly what counting the whole sequence gives: the same commit
/// count, line totals and author tallies, and the same activity log.
pub proof fn lemma_partition_invariance(chunks: Seq<Seq<CommitModel>>, contributor: Seq<char>)
    ensures
        merge_all(counted_apart(chunks, contributor)) == chunk_stats(joined(chunks), contributor),
    decreases chunks.len(),
{
    if chunks.len() > 0 {
        lemma_partition_invariance(chunks.drop_last(), contributor);
        assert(counted_apart(chunks, contributor).drop_last() =~= counted_apart(
            chunks.drop_last(),
            contributor,
        ));
        lemma_chunk_stats_concat(joined(chunks.drop_last()), chunks.last(), contributor);
    }
}

/// The commits of each chunk of a plan, in the order of the chunks.
pub open spec fn cut(commits: Seq<CommitModel>, chunks: Seq<ChunkTask>) -> Seq<Seq<CommitModel>> {
    Seq::new(chunks.len(), |k: int| commits.subrange(chunks[k].start as int, chunks[k].end as int))
}

/// The chunks of a plan, one after the other, are the enumeration.
pub proof fn lemma_plan_joins(commits: Seq<CommitModel>, chunks: Seq<ChunkTask>, chunk_size: nat)
    requires
        is_plan(chunks, commits.len(), chunk_size),
        chunk_size >= 1,
        commits.len() <= usize::MAX,
    ensures
        joined(cut(commits, chunks)) == commits,
{
    lemma_plan_covers(chunks, commits.len(), chunk_size);
    let pieces = cut(commits, chunks);
    if chunks.len() == 0 {
        assert(commits =~= Seq::<CommitModel>::empty());
    } else {
        lemma_plan_prefix(commits, chunks, chunks.len() as int);
        assert(pieces.take(chunks.len() as int) =~= pieces);
        assert(commits.take(chunks.last().end as int) =~= commits);
    }
}

/// The first `k` chunks of a plan, one after the other, are the commits
/// up to the end of the `k`-th chunk.
proof fn lemma_plan_prefix(commits: Seq<CommitModel>, chunks: Seq<ChunkTask>, k: int)
    requires
        1 <= k <= chunks.len(),
        chunks[0].start == 0,
        forall|i: int| 0 <= i < chunks.len() - 1 ==> (#[trigger] chunks[i]).end == chunks[i
            + 1].start,
        forall|i: int|
            0 <= i < chunks.len() ==> (#[trigger] chunks[i]).start < chunks[i].end
                <= commits.len(),
    ensures
        joined(cut(commits, chunks).take(k)) == commits.take(chunks[k - 1].end as int),
    decreases k,
{
    let pieces = cut(commits, chunks);
    assert(pieces.take(k).drop_last() =~= pieces.take(k - 1));
    assert(pieces.take(k).last() == commits.subrange(
        chunks[k - 1].start as int,
        chunks[k - 1].end as int,
    ));
    if k == 1 {
        assert(joined(pieces.take(0)) =~= Seq::<CommitModel>::empty());
        assert(joined(pieces.take(1)) =~= commits.take(chunks[0].end as int));
    } else {
        lemma_plan_prefix(commits, chunks, k - 1);
        assert(chunks[k - 2].end == chunks[k - 1].start);
        assert(joined(pieces.take(k)) =~= commits.take(chunks[k - 1].end as int));
    }
}

/// Counting the chunks of a plan apart and merging the counts in the order
/// of the plan gives exactly what counting the enumeration at once gives.
pub proof fn lemma_planned_counting(
    commits: Seq<CommitModel>,
    chunks: Seq<ChunkTask>,
    chunk_size: nat,
    contributor: Seq<char>,
)
    requires
        is_plan(chunks, commits.len(), chunk_size),
        chunk_size >= 1,
        commits.len() <= usize::MAX,
    ensures
        merge_all(counted_apart(cut(commits, chunks), contributor)) == chunk_stats(
            commits,
            contributor,
        ),
{
    lemma_plan_joins(commits, chunks, chunk_size);
    lemma_partition_invariance(cut(commits, chunks), contributor);
}

/// However the chunks complete, the merged counts have the totals, the
/// commit count and the author tallies of counting the whole sequence at
/// once: `completed` holds the counts of the chunks in any order.
pub proof fn lemma_completion_order(
    chunks: Seq<Seq<CommitModel>>,
    contributor: Seq<char>,
    completed: Seq<StatsModel>,
)
    requires
        completed.to_multiset() == counted_apart(chunks, contributor).to_multiset(),
    ensures
        merge_all(completed).same_totals(chunk_stats(joined(chunks), contributor)),
{
    lemma_partition_invariance(chunks, contributor);
    lemma_merge_order_independent(completed, counted_apart(chunks, contributor));
}

/// The authors of a sequence of commits, each once, in the order in which
/// they first appear.
pub open spec fn authors_in(commits: Seq<CommitModel>) -> Seq<Seq<char>>
    decreases commits.len(),
{
    if commits.len() == 0 {
        Seq::empty()
    } else {
        let before = authors_in(commits.drop_last());
        if before.contains(commits.last().author) {
            before
        } else {
            before.push(commits.last().author)
        }
    }
}

/// What counting for each of `authors` alone gives, in their order.
pub open spec fn counted_for_each(commits: Seq<CommitModel>, authors: Seq<Seq<char>>) -> Seq<
    StatsModel,
> {
    Seq::new(authors.len(), |i: int| chunk_stats(commits, authors[i]))
}

/// What counting the commits by one of `authors` gives.
pub open spec fn counted_among(commits: Seq<CommitModel>, authors: Seq<Seq<char>>) -> StatsModel
    decreases commits.len(),
{
    if commits.len() == 0 {
        StatsModel::empty()
    } else {
        let before = counted_among(commits.drop_last(), authors);
        let commit = commits.last();
        if authors.contains(commit.author) {
            before.counted(commit.author, commit.date, commit.added, commit.deleted)
        } else {
            before
        }
    }
}

/// `authors_in` lists every author once.
pub proof fn lemma_authors_in(commits: Seq<CommitModel>)
    ensures
        authors_in(commits).no_duplicates(),
        forall|i: int| 0 <= i < commits.len() ==> authors_in(commits).contains(commits[i].author),
        forall|name: Seq<char>|
            authors_in(commits).contains(name) ==> exists|i: int|
                0 <= i < commits.len() && commits[i].author == name,
    decreases commits.len(),
{
    if commits.len() > 0 {
        let front = commits.drop_last();
        let before = authors_in(front);
        let all = authors_in(commits);
        lemma_authors_in(front);
        assert forall|i: int| 0 <= i < commits.len() implies all.contains(commits[i].author) by {
            if i < front.len() {
                assert(before.contains(front[i].author));
                let k = choose|k: int| 0 <= k < before.len() && before[k] == front[i].author;
                assert(all[k] == commits[i].author);
            } else if before.contains(commits.last().author) {
            } else {
                assert(all[all.len() - 1] == commits[i].author);
            }
        }
        assert forall|name: Seq<char>| all.contains(name) implies exists|i: int|
            0 <= i < commits.len() && commits[i].author == name by {
            if before.contains(name) {
                let i = choose|i: int| 0 <= i < front.len() && front[i].author == name;
                assert(commits[i].author == name);
            } else {
                let k = choose|k: int| 0 <= k < all.len() && all[k] == name;
                if k < before.len() {
                    assert(before[k] == name);
                }
                assert(commits[commits.len() - 1].author == name);
            }
        }
    }
}

/// Counting among all the authors of the commits is counting for
/// everyone.
proof fn lemma_counted_among_all(commits: Seq<CommitModel>, authors: Seq<Seq<char>>)
    requires
        forall|i: int| 0 <= i < commits.len() ==> authors.contains(commits[i].author),
    ensures
        counted_among(commits, authors) == chunk_stats(commits, everyone()),
    decreases commits.len(),
{
    if commits.len() > 0 {
        let front = commits.drop_last();
        assert forall|i: int| 0 <= i < front.len() implies authors.contains(front[i].author) by {
            assert(front[i] == commits[i]);
        }
        lemma_counted_among_all(front, authors);
        assert(authors.contains(commits[commits.len() - 1].author));
    }
}

/// Counting among `authors` and one more author is counting among
/// `authors`, counting for that author, and merging the two, but for the
/// order of the log.
proof fn lemma_counted_among_push(
    commits: Seq<CommitModel>,
    authors: Seq<Seq<char>>,
    author: Seq<char>,
)
    requires
        !authors.contains(author),
        author != everyone(),
    ensures
        same_content(
            counted_among(commits, authors.push(author)),
            counted_among(commits, authors).merge(chunk_stats(commits, author)),
        ),
    decreases commits.len(),
{
    let more = authors.push(author);
    if commits.len() > 0 {
        let front = commits.drop_last();
        let commit = commits.last();
        lemma_counted_among_push(front, authors, author);
        let among = counted_among(front, authors);
        let alone = chunk_stats(front, author);
        let both = counted_among(front, more);
        lemma_content_merge(among, alone);
        assert(more.contains(author)) by {
            assert(more[more.len() - 1] == author);
        }
        assert forall|name: Seq<char>| authors.contains(name) implies more.contains(name) by {
            let k = choose|k: int| 0 <= k < authors.len() && authors[k] == name;
            assert(more[k] == name);
        }
        assert forall|name: Seq<char>| more.contains(name) && name != author implies authors.contains(
            name,
        ) by {
            let k = choose|k: int| 0 <= k < more.len() && more[k] == name;
            assert(authors[k] == name);
        }
        if commit.author == author {
            let grown = alone.counted(commit.author, commit.date, commit.added, commit.deleted);
            lemma_content_counted(both, commit.author, commit.date, commit.added, commit.deleted);
            lemma_content_counted(alone, commit.author, commit.date, commit.added, commit.deleted);
            lemma_content_merge(among, grown);
            assert(log_lines(counted_among(commits, more)) =~= log_lines(
                counted_among(commits, authors).merge(chunk_stats(commits, author)),
            ));
            assert(counted_among(commits, more).authors =~= counted_among(commits, authors).merge(
                chunk_stats(commits, author),
            ).authors);
        } else if authors.contains(commit.author) {
            let grown = among.counted(commit.author, commit.date, commit.added, commit.deleted);
            lemma_content_counted(both, commit.author, commit.date, commit.added, commit.deleted);
            lemma_content_counted(among, commit.author, commit.date, commit.added, commit.deleted);
            lemma_content_merge(grown, alone);
            assert(log_lines(counted_among(commits, more)) =~= log_lines(
                counted_among(commits, authors).merge(chunk_stats(commits, author)),
            ));
            assert(counted_among(commits, more).authors =~= counted_among(commits, authors).merge(
                chunk_stats(commits, author),
            ).authors);
        } else {
            assert(!more.contains(commit.author));
        }
    } else {
        assert(counted_among(commits, authors).merge(chunk_stats(commits, author)).log
            =~= Seq::<LogLine>::empty());
        assert(counted_among(commits, authors).merge(chunk_stats(commits, author)).authors
            =~= Multiset::<Seq<char>>::empty());
    }
}

/// Counting for each of `authors` alone and merging gives what counting
/// among `authors` gives, but for the order of the log.
proof fn lemma_counted_for_each(commits: Seq<CommitModel>, authors: Seq<Seq<char>>)
    requires
        authors.no_duplicates(),
        !authors.contains(everyone()),
    ensures
        same_content(
            merge_all(counted_for_each(commits, authors)),
            counted_among(commits, authors),
        ),
    decreases authors.len(),
{
    if authors.len() == 0 {
        lemma_counted_among_none(commits, authors);
    } else {
        let front = authors.drop_last();
        let author = authors.last();
        assert(front.no_duplicates());
        assert(!front.contains(everyone())) by {
            if front.contains(everyone()) {
                let k = choose|k: int| 0 <= k < front.len() && front[k] == everyone();
                assert(authors[k] == everyone());
            }
        }
        assert(!front.contains(author)) by {
            if front.contains(author) {
                let k = choose|k: int| 0 <= k < front.len() && front[k] == author;
                assert(authors[k] == authors[authors.len() - 1]);
            }
        }
        assert(author != everyone()) by {
            assert(authors[authors.len() - 1] == author);
        }
        lemma_counted_for_each(commits, front);
        assert(counted_for_each(commits, authors).drop_last() =~= counted_for_each(commits, front));
        assert(front.push(author) =~= authors);
        lemma_counted_among_push(commits, front, author);
        lemma_content_merge(merge_all(counted_for_each(commits, front)), chunk_stats(commits, author));
        lemma_content_merge(counted_among(commits, front), chunk_stats(commits, author));
    }
}

/// Counting among no authors counts nothing.
proof fn lemma_counted_among_none(commits: Seq<CommitModel>, authors: Seq<Seq<char>>)
    requires
        authors.len() == 0,
    ensures
        counted_among(commits, authors) == StatsModel::empty(),
    decreases commits.len(),
{
    if commits.len() > 0 {
        lemma_counted_among_none(commits.drop_last(), authors);
    }
}

/// Counting for everyone gives the merged counts of each author counted
/// alone: the same commit count, line totals and author tallies, and the
/// same log lines in another order. This holds where no author bears the
/// name "All", which as a filter accepts everyone.
pub proof fn lemma_filter_decomposition(commits: Seq<CommitModel>)
    requires
        forall|i: int| 0 <= i < commits.len() ==> commits[i].author != everyone(),
    ensures
        merge_all(counted_for_each(commits, authors_in(commits))).same_totals(
            chunk_stats(commits, everyone()),
        ),
{
    let authors = authors_in(commits);
    lemma_authors_in(commits);
    assert(!authors.contains(everyone())) by {
        if authors.contains(everyone()) {
            let i = choose|i: int| 0 <= i < commits.len() && commits[i].author == everyone();
        }
    }
    lemma_counted_for_each(commits, authors);
    lemma_counted_among_all(commits, authors);
    lemma_same_content(
        merge_all(counted_for_each(commits, authors)),
        chunk_stats(commits, everyone()),
    );
}

/// A filter that names no author of the commits counts nothing.
pub proof fn lemma_filter_without_match(commits: Seq<CommitModel>, contributor: Seq<char>)
    requires
        contributor != everyone(),
        forall|i: int| 0 <= i < commits.len() ==> commits[i].author != contributor,
    ensures
        chunk_stats(commits, contributor) == StatsModel::empty(),
    decreases commits.len(),
{
    if commits.len() > 0 {
        let front = commits.drop_last();
        assert forall|i: int| 0 <= i < front.len() implies front[i].author != contributor by {
            assert(front[i] == commits[i]);
        }
        lemma_filter_without_match(front, contributor);
        assert(!accepts(contributor, commits[commits.len() - 1].author));
    }
}

} // verus!
