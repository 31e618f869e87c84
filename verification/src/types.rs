//! The values that an analysis hands out.

use vstd::prelude::*;
use vstd::multiset::*;
use crate::ranking::{pairs_of, Ranked};
use crate::stats::{log_of, LogLine};
use crate::tally::{texts_of, Tally};
use crate::text::text_equal;

verus! {

/// The quotient of two counts, kept exact. A zero denominator stands for a
/// quotient that has no finite value.
#[derive(Clone, Copy, Debug, PartialEq, Eq, Structural)]
pub struct Ratio {
    pub numerator: u128,
    pub denominator: u128,
}

impl Ratio {
    /// The ratio that is zero.
    pub fn zero() -> (ratio: Ratio)
        ensures
            ratio == (Ratio { numerator: 0, denominator: 1 }),
    {
        Ratio { numerator: 0, denominator: 1 }
    }

    /// Whether the ratio has a finite value.
    pub fn is_finite(&self) -> (finite: bool)
        ensures
            finite == (self.denominator != 0),
    {
        self.denominator != 0
    }

    /// The whole part of a finite ratio.
    pub fn whole(&self) -> (part: u128)
        requires
            self.denominator != 0,
        ensures
            part == self.numerator / self.denominator,
    {
        self.numerator / self.denominator
    }

    /// What is left of a finite ratio's numerator beyond its whole part.
    pub fn remainder(&self) -> (part: u128)
        requires
            self.denominator != 0,
        ensures
            part == self.numerator % self.denominator,
            self.numerator == (self.numerator / self.denominator) * self.denominator + part,
    {
        assert(self.numerator == (self.numerator / self.denominator) * self.denominator
            + self.numerator % self.denominator) by (nonlinear_arith)
            requires
                self.denominator != 0,
        ;
        self.numerator % self.denominator
    }
}

/// The key under which a finished analysis is kept: the branch and the
/// contributor filter that it was made for.
#[derive(Clone, Hash, Eq, PartialEq, Debug)]
pub struct CacheKey {
    /// The name of the branch.
    pub branch: String,
    /// The name of the contributor, or "All".
    pub contributor: String,
}

impl View for CacheKey {
    type V = (Seq<char>, Seq<char>);

    open spec fn view(&self) -> (Seq<char>, Seq<char>) {
        (self.branch@, self.contributor@)
    }
}

impl CacheKey {
    /// The key for a branch and a contributor filter.
    pub fn new(branch: &str, contributor: &str) -> (key: CacheKey)
        ensures
            key@ == (branch@, contributor@),
    {
        CacheKey { branch: branch.to_owned(), contributor: contributor.to_owned() }
    }

    /// Whether two keys name the same branch and the same contributor.
    pub fn matches(&self, other: &CacheKey) -> (same: bool)
        ensures
            same == (self@ == other@),
    {
        text_equal(self.branch.as_str(), other.branch.as_str()) && text_equal(
            self.contributor.as_str(),
            other.contributor.as_str(),
        )
    }

    /// A copy of the key.
    pub fn duplicate(&self) -> (copy: CacheKey)
        ensures
            copy@ == self@,
    {
        CacheKey { branch: self.branch.clone(), contributor: self.contributor.clone() }
    }
}

/// What an analysis has found.
#[derive(Debug)]
pub struct AnalysisResult {
    /// The number of commits counted.
    pub commit_count: usize,
    /// The lines added over all commits counted.
    pub total_lines_added: usize,
    /// The lines deleted over all commits counted.
    pub total_lines_deleted: usize,
    /// The contributors with the most commits, with their commit counts.
    pub top_contributors: Vec<(String, usize)>,
    /// One entry for each commit counted: date, lines added, lines deleted.
    pub commit_activity: Vec<(String, usize, usize)>,
    /// The lines changed per commit.
    pub average_commit_size: Ratio,
    /// The number of commits in each month.
    pub commit_frequency: Tally,
    /// The same ranking as `top_contributors`: by commit count.
    pub top_contributors_by_lines: Vec<(String, usize)>,
    /// The branches of the repository, the default branch first.
    pub available_branches: Vec<String>,
    /// The time that the analysis took, in milliseconds.
    pub elapsed_time: u64,
    /// A summary of how the analysis ran.
    pub processing_stats: String,
}

/// The model of an analysis result.
pub struct ResultModel {
    pub commit_count: nat,
    pub total_lines_added: nat,
    pub total_lines_deleted: nat,
    pub top_contributors: Seq<Ranked>,
    pub commit_activity: Seq<LogLine>,
    pub average_commit_size: Ratio,
    pub commit_frequency: Multiset<Seq<char>>,
    pub top_contributors_by_lines: Seq<Ranked>,
    pub available_branches: Seq<Seq<char>>,
    pub elapsed_time: nat,
    pub processing_stats: Seq<char>,
}

impl View for AnalysisResult {
    type V = ResultModel;

    open spec fn view(&self) -> ResultModel {
        ResultModel {
            commit_count: self.commit_count as nat,
            total_lines_added: self.total_lines_added as nat,
            total_lines_deleted: self.total_lines_deleted as nat,
            top_contributors: pairs_of(self.top_contributors@),
            commit_activity: log_of(self.commit_activity@),
            average_commit_size: self.average_commit_size,
            commit_frequency: self.commit_frequency@,
            top_contributors_by_lines: pairs_of(self.top_contributors_by_lines@),
            available_branches: texts_of(self.available_branches@),
            elapsed_time: self.elapsed_time as nat,
            processing_stats: self.processing_stats@,
        }
    }
}

/// A copy of a list of names with counts.
pub fn copy_pairs(pairs: &Vec<(String, usize)>) -> (copy: Vec<(String, usize)>)
    ensures
        pairs_of(copy@) == pairs_of(pairs@),
{
    let mut copy: Vec<(String, usize)> = Vec::new();
    let mut i: usize = 0;
    while i < pairs.len()
        invariant
            0 <= i <= pairs@.len(),
            pairs_of(copy@) =~= pairs_of(pairs@).take(i as int),
        decreases pairs@.len() - i,
    {
        let ghost before = pairs_of(copy@);
        let name = pairs[i].0.clone();
        copy.push((name, pairs[i].1));
        assert(pairs_of(copy@) =~= before.push(pairs_of(pairs@)[i as int]));
        i += 1;
    }
    assert(pairs_of(pairs@).take(pairs@.len() as int) =~= pairs_of(pairs@));
    copy
}

/// A copy of an activity log.
pub fn copy_log(log: &Vec<(String, usize, usize)>) -> (copy: Vec<(String, usize, usize)>)
    ensures
        log_of(copy@) == log_of(log@),
{
    let mut copy: Vec<(String, usize, usize)> = Vec::new();
    let mut i: usize = 0;
    while i < log.len()
        invariant
            0 <= i <= log@.len(),
            log_of(copy@) =~= log_of(log@).take(i as int),
        decreases log@.len() - i,
    {
        let ghost before = log_of(copy@);
        let date = log[i].0.clone();
        copy.push((date, log[i].1, log[i].2));
        assert(log_of(copy@) =~= before.push(log_of(log@)[i as int]));
        i += 1;
    }
    assert(log_of(log@).take(log@.len() as int) =~= log_of(log@));
    copy
}

/// A copy of a list of names.
pub fn copy_names(names: &Vec<String>) -> (copy: Vec<String>)
    ensures
        texts_of(copy@) == texts_of(names@),
{
    let mut copy: Vec<String> = Vec::new();
    let mut i: usize = 0;
    while i < names.len()
        invariant
            0 <= i <= names@.len(),
            texts_of(copy@) =~= texts_of(names@).take(i as int),
        decreases names@.len() - i,
    {
        let ghost before = texts_of(copy@);
        copy.push(names[i].clone());
        assert(texts_of(copy@) =~= before.push(texts_of(names@)[i as int]));
        i += 1;
    }
    assert(texts_of(names@).take(names@.len() as int) =~= texts_of(names@));
    copy
}

impl AnalysisResult {
    /// The month tally is well formed.
    pub open spec fn wf(&self) -> bool {
        self.commit_frequency.wf()
    }
}

impl Clone for AnalysisResult {
    /// A deep copy: every field of the copy has the value of the field copied.
    fn clone(&self) -> (copy: AnalysisResult)
        ensures
            self.wf() ==> copy.wf() && copy@ == self@,
    {
        AnalysisResult {
            commit_count: self.commit_count,
            total_lines_added: self.total_lines_added,
            total_lines_deleted: self.total_lines_deleted,
            top_contributors: copy_pairs(&self.top_contributors),
            commit_activity: copy_log(&self.commit_activity),
            average_commit_size: self.average_commit_size,
            commit_frequency: self.commit_frequency.clone(),
            top_contributors_by_lines: copy_pairs(&self.top_contributors_by_lines),
            available_branches: copy_names(&self.available_branches),
            elapsed_time: self.elapsed_time,
            processing_stats: self.processing_stats.clone(),
        }
    }
}

impl Default for AnalysisResult {
    /// The result of an analysis that found nothing.
    fn default() -> (result: AnalysisResult)
        ensures
            result.wf(),
            result.commit_count == 0,
            result.total_lines_added == 0,
            result.total_lines_deleted == 0,
            result.top_contributors@.len() == 0,
            result.commit_activity@.len() == 0,
            result.average_commit_size == (Ratio { numerator: 0, denominator: 1 }),
            result.commit_frequency@ == Multiset::<Seq<char>>::empty(),
            result.top_contributors_by_lines@.len() == 0,
            result.available_branches@.len() == 0,
            result.elapsed_time == 0,
            result.processing_stats@.len() == 0,
    {
        AnalysisResult {
            commit_count: 0,
            total_lines_added: 0,
            total_lines_deleted: 0,
            top_contributors: Vec::new(),
            commit_activity: Vec::new(),
            average_commit_size: Ratio::zero(),
            commit_frequency: Tally::new(),
            top_contributors_by_lines: Vec::new(),
            available_branches: Vec::new(),
            elapsed_time: 0,
            processing_stats: String::new(),
        }
    }
}

} // verus!
