//! From the merged counts to the result of an analysis.
//!
//! The result takes the totals and the activity log as they were merged,
//! ranks the five contributors with the most commits, divides the lines
//! changed by the number of commits, and counts the commits of each month,
//! the month being the first seven characters of a date.

use vstd::prelude::*;
use vstd::multiset::*;
use crate::ranking::{is_top_ranking, top_contributors};
use crate::stats::{log_of, merge_all, merge_partials, models_of, LogLine, PartialStats, StatsModel};
use crate::tally::{texts_of, Tally};
use crate::text::{leading, leading_chars};
use crate::types::{copy_log, copy_pairs, AnalysisResult, Ratio};

verus! {

broadcast use group_multiset_axioms;

/// The number of contributors that a result ranks.
pub const TOP_CONTRIBUTORS: usize = 5;

/// The number of characters of a date that name its month.
pub const MONTH_CHARS: usize = 7;

/// The lines changed per commit: nothing where no commit was counted, else
/// the lines added and deleted, divided by the number of commits.
pub open spec fn average_of(commit_count: nat, added: nat, deleted: nat) -> Ratio {
    if commit_count == 0 {
        Ratio { numerator: 0, denominator: 1 }
    } else {
        Ratio { numerator: (added + deleted) as u128, denominator: commit_count as u128 }
    }
}

/// The lines changed per commit.
pub fn average_commit_size(commit_count: usize, added: usize, deleted: usize) -> (average: Ratio)
    ensures
        average == average_of(commit_count as nat, added as nat, deleted as nat),
        commit_count == 0 ==> average.numerator == 0 && average.denominator == 1,
        commit_count > 0 ==> average.numerator == added + deleted && average.denominator
            == commit_count,
{
    if commit_count == 0 {
        Ratio::zero()
    } else {
        Ratio { numerator: added as u128 + deleted as u128, denominator: commit_count as u128 }
    }
}

/// The month of a date: its first seven characters, or all of it where it
/// has fewer.
pub open spec fn month_of(date: Seq<char>) -> Seq<char> {
    leading(date, MONTH_CHARS as nat)
}

/// The months of the entries of a log, each as often as it has entries.
pub open spec fn months_of(log: Seq<LogLine>) -> Multiset<Seq<char>>
    decreases log.len(),
{
    if log.len() == 0 {
        Multiset::empty()
    } else {
        months_of(log.drop_last()).insert(month_of(log.last().0))
    }
}

/// A log has one month for each entry.
pub proof fn lemma_months_len(log: Seq<LogLine>)
    ensures
        months_of(log).len() == log.len(),
    decreases log.len(),
{
    if log.len() > 0 {
        lemma_months_len(log.drop_last());
    }
}

/// Counts the entries of an activity log by month.
pub fn commit_frequency(log: &Vec<(String, usize, usize)>) -> (months: Tally)
    ensures
        months.wf(),
        months@ == months_of(log_of(log@)),
{
    let ghost lines = log_of(log@);
    let mut months = Tally::new();
    let mut i: usize = 0;
    assert(lines.take(0) =~= Seq::<LogLine>::empty());
    while i < log.len()
        invariant
            0 <= i <= log@.len(),
            lines == log_of(log@),
            months.wf(),
            months@ == months_of(lines.take(i as int)),
        decreases log@.len() - i,
    {
        proof {
            lemma_months_len(lines.take(i as int));
            assert(lines.take(i + 1).drop_last() =~= lines.take(i as int));
            assert(lines.take(i + 1).last() == lines[i as int]);
        }
        let month = leading_chars(log[i].0.as_str(), MONTH_CHARS);
        months.record(month.as_str());
        i += 1;
    }
    assert(lines.take(i as int) =~= lines);
    months
}

/// Whether `result` is the result that the merged counts `stats` give,
/// with the branches, the elapsed time and the summary handed on as they
/// are.
pub open spec fn is_summary_of(
    result: &AnalysisResult,
    stats: StatsModel,
    branches: Seq<Seq<char>>,
    elapsed_time: nat,
    processing_stats: Seq<char>,
) -> bool {
    &&& result.wf()
    &&& result@.commit_count == stats.commit_count()
    &&& result@.total_lines_added == stats.lines_added()
    &&& result@.total_lines_deleted == stats.lines_deleted()
    &&& result@.commit_activity == stats.log
    &&& is_top_ranking(stats.authors, result@.top_contributors, TOP_CONTRIBUTORS as nat)
    &&& result@.top_contributors_by_lines == result@.top_contributors
    &&& result@.average_commit_size == average_of(
        stats.commit_count(),
        stats.lines_added(),
        stats.lines_deleted(),
    )
    &&& result@.commit_frequency == months_of(stats.log)
    &&& result@.available_branches == branches
    &&& result@.elapsed_time == elapsed_time
    &&& result@.processing_stats == processing_stats
}

/// The contributors of a result are at most five, in descending order of
/// their commit counts, and the average is zero where no commit was
/// counted.
pub proof fn lemma_summary_shape(
    result: &AnalysisResult,
    stats: StatsModel,
    branches: Seq<Seq<char>>,
    elapsed_time: nat,
    processing_stats: Seq<char>,
)
    requires
        is_summary_of(result, stats, branches, elapsed_time, processing_stats),
    ensures
        result@.top_contributors.len() <= 5,
        forall|i: int, j: int|
            0 <= i < j < result@.top_contributors.len() ==> result@.top_contributors[i].1
                >= result@.top_contributors[j].1,
        result@.commit_count == 0 ==> result@.average_commit_size == (Ratio {
            numerator: 0,
            denominator: 1,
        }),
{
    crate::ranking::lemma_top_ranking_descends(
        stats.authors,
        result@.top_contributors,
        TOP_CONTRIBUTORS as nat,
    );
}

/// Makes the result of an analysis from the merged counts. The branches,
/// the elapsed time in milliseconds and the summary are handed on as they
/// are.
pub fn summarize(
    stats: &PartialStats,
    available_branches: Vec<String>,
    elapsed_time: u64,
    processing_stats: String,
) -> (result: AnalysisResult)
    requires
        stats.wf(),
    ensures
        is_summary_of(
            &result,
            stats@,
            texts_of(available_branches@),
            elapsed_time as nat,
            processing_stats@,
        ),
        result.top_contributors@.len() <= TOP_CONTRIBUTORS,
        forall|i: int, j: int|
            0 <= i < j < result.top_contributors@.len() ==> result.top_contributors@[i].1
                >= result.top_contributors@[j].1,
{
    let top = top_contributors(stats.author_counts(), TOP_CONTRIBUTORS);
    let by_lines = copy_pairs(&top);
    let activity = copy_log(stats.activity_log());
    let frequency = commit_frequency(&activity);
    let average = average_commit_size(
        stats.commit_count(),
        stats.lines_added(),
        stats.lines_deleted(),
    );
    AnalysisResult {
        commit_count: stats.commit_count(),
        total_lines_added: stats.lines_added(),
        total_lines_deleted: stats.lines_deleted(),
        top_contributors: top,
        commit_activity: activity,
        average_commit_size: average,
        commit_frequency: frequency,
        top_contributors_by_lines: by_lines,
        available_branches,
        elapsed_time,
        processing_stats,
    }
}

/// Merges the partial counts of all chunks, in the order given, and makes
/// the result of the analysis from them. `None` where a merged total does
/// not fit the machine word.
pub fn aggregate(
    parts: Vec<PartialStats>,
    available_branches: Vec<String>,
    elapsed_time: u64,
    processing_stats: String,
) -> (outcome: Option<AnalysisResult>)
    requires
        forall|i: int| 0 <= i < parts@.len() ==> (#[trigger] parts@[i]).wf(),
    ensures
        outcome is Some <==> merge_all(models_of(parts@)).fits(),
        outcome matches Some(result) ==> is_summary_of(
            &result,
            merge_all(models_of(parts@)),
            texts_of(available_branches@),
            elapsed_time as nat,
            processing_stats@,
        ),
{
    match merge_partials(parts) {
        Some(stats) => Some(summarize(&stats, available_branches, elapsed_time, processing_stats)),
        None => None,
    }
}

} // verus!
