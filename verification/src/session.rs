//! The state of a session: what the user has chosen and what the last
//! analysis has found.

use vstd::prelude::*;
use vstd::string::*;
use crate::cache::{CacheManager, KeyModel};
use crate::progress::ProgressEstimate;
use crate::ranking::pairs_of;
use crate::stats::log_of;
use crate::tally::{texts_of, Tally};
use crate::text::text_equal;
use crate::types::{
    copy_log,
    copy_names,
    copy_pairs,
    AnalysisResult,
    CacheKey,
    Ratio,
    ResultModel,
};

verus! {

/// The state of a session.
#[derive(Debug)]
pub struct App {
    /// The path of the repository.
    pub repo_path: String,
    /// The number of commits of the last analysis.
    pub commit_count: usize,
    /// The lines added of the last analysis.
    pub total_lines_added: usize,
    /// The lines deleted of the last analysis.
    pub total_lines_deleted: usize,
    /// The top contributors of the last analysis.
    pub top_contributors: Vec<(String, usize)>,
    /// The top contributors of the last analysis made for everyone.
    pub all_contributors: Vec<(String, usize)>,
    /// The activity log of the last analysis.
    pub commit_activity: Vec<(String, usize, usize)>,
    /// The path at which the plot is written.
    pub plot_path: String,
    /// The metric that is plotted.
    pub current_metric: String,
    /// The lines changed per commit of the last analysis.
    pub average_commit_size: Ratio,
    /// The commits per month of the last analysis.
    pub commit_frequency: Tally,
    /// The top contributors of the last analysis, by commit count.
    pub top_contributors_by_lines: Vec<(String, usize)>,
    /// Whether the plot is out of date.
    pub update_needed: bool,
    /// Whether an analysis is running.
    pub is_analyzing: bool,
    /// Whether the plot has a logarithmic scale.
    pub use_log_scale: bool,
    /// The branch that is analysed.
    pub selected_branch: String,
    /// The contributor filter of the analysis.
    pub selected_contributor: String,
    /// The branches of the repository.
    pub available_branches: Vec<String>,
    /// The results of earlier analyses.
    pub analysis_cache: CacheManager,
    /// The time that the last analysis took, in milliseconds.
    pub last_analysis_time: Option<u64>,
    /// The commits per second of the last analysis.
    pub commits_per_second: Option<Ratio>,
    /// The summary of the last analysis.
    pub processing_stats: String,
    /// The result of the last analysis.
    pub analysis_result: Option<AnalysisResult>,
    /// What went wrong last.
    pub error_message: Option<String>,
    /// The progress of the running analysis.
    pub progress: Option<ProgressEstimate>,
}

/// The branch that is selected after a result came in: the one that was
/// selected, and where none was, the first branch that is known by then,
/// or "main" where none is known.
pub open spec fn branch_after(
    selected: Seq<char>,
    known: Seq<Seq<char>>,
    listed: Seq<Seq<char>>,
) -> Seq<char> {
    if known.len() > 0 || selected.len() > 0 {
        selected
    } else if listed.len() > 0 {
        listed[0]
    } else {
        "main"@
    }
}

/// The commits per second of an analysis that counted `commits` commits in
/// `elapsed` milliseconds.
pub open spec fn rate_of(commits: nat, elapsed: nat) -> Ratio {
    Ratio { numerator: (commits * 1000) as u128, denominator: elapsed as u128 }
}

/// Whether `after` is the session `before` with `result` taken in. The
/// contributors for everyone are renewed where none were known or the
/// filter is "All". The branches are taken over where none were known, and
/// a branch is selected where none was. The result is kept in the cache
/// under the selection, and its figures are those of the session; the plot
/// is out of date and no progress is shown. What the user has chosen stays.
pub open spec fn took_in(before: &App, after: &App, result: ResultModel) -> bool {
    &&& pairs_of(after.all_contributors@) == if before.all_contributors@.len() == 0
        || before.selected_contributor@ == "All"@ {
        result.top_contributors
    } else {
        pairs_of(before.all_contributors@)
    }
    &&& texts_of(after.available_branches@) == if before.available_branches@.len() == 0 {
        result.available_branches
    } else {
        texts_of(before.available_branches@)
    }
    &&& after.selected_branch@ == branch_after(
        before.selected_branch@,
        texts_of(before.available_branches@),
        result.available_branches,
    )
    &&& after.selected_contributor@ == before.selected_contributor@
    &&& after.analysis_cache@ == before.analysis_cache@.insert(after.selection(), result)
    &&& after.last_analysis_time == Some(result.elapsed_time as u64)
    &&& after.commits_per_second == Some(rate_of(result.commit_count, result.elapsed_time))
    &&& after.processing_stats@ == result.processing_stats
    &&& after.commit_count == result.commit_count
    &&& after.total_lines_added == result.total_lines_added
    &&& after.total_lines_deleted == result.total_lines_deleted
    &&& pairs_of(after.top_contributors@) == result.top_contributors
    &&& log_of(after.commit_activity@) == result.commit_activity
    &&& after.average_commit_size == result.average_commit_size
    &&& after.commit_frequency@ == result.commit_frequency
    &&& pairs_of(after.top_contributors_by_lines@) == result.top_contributors_by_lines
    &&& after.update_needed
    &&& (after.analysis_result matches Some(kept) && kept@ == result)
    &&& after.progress is None
    &&& after.repo_path@ == before.repo_path@
    &&& after.plot_path@ == before.plot_path@
    &&& after.current_metric@ == before.current_metric@
    &&& after.is_analyzing == before.is_analyzing
    &&& after.use_log_scale == before.use_log_scale
    &&& after.error_message == before.error_message
}

impl App {
    /// The cache and the tallies are well formed.
    pub open spec fn wf(&self) -> bool {
        &&& self.analysis_cache.wf()
        &&& self.commit_frequency.wf()
        &&& (self.analysis_result matches Some(result) ==> result.wf())
    }

    /// The key under which the result of the selection is kept.
    pub open spec fn selection(&self) -> KeyModel {
        (self.selected_branch@, self.selected_contributor@)
    }

    /// Takes the result of an analysis in: see [`took_in`].
    pub fn update_with_result(&mut self, result: AnalysisResult)
        requires
            old(self).wf(),
            result.wf(),
        ensures
            final(self).wf(),
            took_in(old(self), final(self), result@),
    {
        if self.all_contributors.len() == 0 || text_equal(
            self.selected_contributor.as_str(),
            "All",
        ) {
            self.all_contributors = copy_pairs(&result.top_contributors);
        }
        if self.available_branches.len() == 0 {
            self.available_branches = copy_names(&result.available_branches);
            if self.selected_branch.as_str().unicode_len() == 0 {
                if self.available_branches.len() > 0 {
                    self.selected_branch = self.available_branches[0].clone();
                } else {
                    self.selected_branch = "main".to_owned();
                }
            }
        }
        let key = CacheKey::new(self.selected_branch.as_str(), self.selected_contributor.as_str());
        self.analysis_cache.store(key, result.clone());
        self.last_analysis_time = Some(result.elapsed_time);
        assert(result.commit_count * 1000 <= u128::MAX) by (nonlinear_arith)
            requires
                result.commit_count <= u64::MAX,
        ;
        self.commits_per_second = Some(
            Ratio {
                numerator: result.commit_count as u128 * 1000,
                denominator: result.elapsed_time as u128,
            },
        );
        self.processing_stats = result.processing_stats.clone();
        self.commit_count = result.commit_count;
        self.total_lines_added = result.total_lines_added;
        self.total_lines_deleted = result.total_lines_deleted;
        self.top_contributors = copy_pairs(&result.top_contributors);
        self.commit_activity = copy_log(&result.commit_activity);
        self.average_commit_size = result.average_commit_size;
        self.commit_frequency = result.commit_frequency.clone();
        self.top_contributors_by_lines = copy_pairs(&result.top_contributors_by_lines);
        self.update_needed = true;
        self.analysis_result = Some(result);
        self.progress = None;
    }

    /// Follows a change of the selection. Where the cache holds a result
    /// for the new selection, that result is taken in and no analysis is
    /// needed. Else the session is marked as analysing, and `true` says
    /// that an analysis of the selection has to be started.
    pub fn handle_selection_change(&mut self) -> (analysis_needed: bool)
        requires
            old(self).wf(),
        ensures
            final(self).wf(),
            analysis_needed == !old(self).analysis_cache@.contains_key(old(self).selection()),
            analysis_needed ==> *final(self) == (App { is_analyzing: true, ..*old(self) }),
            !analysis_needed ==> took_in(
                old(self),
                final(self),
                old(self).analysis_cache@[old(self).selection()],
            ),
    {
        match self.analysis_cache.get_cached_result(
            self.selected_branch.as_str(),
            self.selected_contributor.as_str(),
        ) {
            Some(cached) => {
                self.update_with_result(cached);
                false
            },
            None => {
                self.is_analyzing = true;
                true
            },
        }
    }

    /// A copy of the result kept for `branch` and `contributor`, if there
    /// is one.
    pub fn get_cached_result(&self, branch: &str, contributor: &str) -> (found: Option<
        AnalysisResult,
    >)
        requires
            self.wf(),
        ensures
            found is Some <==> self.analysis_cache@.contains_key((branch@, contributor@)),
            found matches Some(result) ==> result.wf() && result@ == self.analysis_cache@[(
                branch@,
                contributor@,
            )],
    {
        self.analysis_cache.get_cached_result(branch, contributor)
    }

    /// The selection as one text: the branch, a colon, the contributor.
    pub fn get_cache_key(&self) -> (key: String)
        ensures
            key@ == self.selected_branch@ + ":"@ + self.selected_contributor@,
    {
        self.selected_branch.clone().concat(":").concat(self.selected_contributor.as_str())
    }

    /// The progress of the running analysis in three lines, where there is
    /// any.
    pub fn format_progress(&self) -> (text: Option<String>)
        requires
            self.progress matches Some(progress) ==> progress.wf(),
        ensures
            text is Some <==> self.progress is Some,
            text matches Some(lines) ==> lines@ == self.progress.unwrap().text(),
    {
        match &self.progress {
            Some(progress) => Some(progress.format()),
            None => None,
        }
    }

    /// Shows `progress` as the progress of the running analysis.
    pub fn update_progress(&mut self, progress: ProgressEstimate)
        ensures
            *final(self) == (App { progress: Some(progress), ..*old(self) }),
    {
        self.progress = Some(progress);
    }
}

impl Default for App {
    /// A session that has analysed nothing: the branch "main" and the
    /// filter "All" are selected, and the metric "Commits" is plotted to
    /// "commit_activity.png".
    fn default() -> (app: App)
        ensures
            app.wf(),
            app.repo_path@.len() == 0,
            app.commit_count == 0,
            app.total_lines_added == 0,
            app.total_lines_deleted == 0,
            app.top_contributors@.len() == 0,
            app.all_contributors@.len() == 0,
            app.commit_activity@.len() == 0,
            app.plot_path@ == "commit_activity.png"@,
            app.current_metric@ == "Commits"@,
            app.average_commit_size == (Ratio { numerator: 0, denominator: 1 }),
            app.commit_frequency@.len() == 0,
            app.top_contributors_by_lines@.len() == 0,
            !app.update_needed,
            !app.is_analyzing,
            !app.use_log_scale,
            app.selected_branch@ == "main"@,
            app.selected_contributor@ == "All"@,
            app.available_branches@.len() == 0,
            app.analysis_cache@ == Map::<KeyModel, ResultModel>::empty(),
            app.last_analysis_time is None,
            app.commits_per_second is None,
            app.processing_stats@.len() == 0,
            app.analysis_result is None,
            app.error_message is None,
            app.progress is None,
    {
        App {
            repo_path: String::new(),
            commit_count: 0,
            total_lines_added: 0,
            total_lines_deleted: 0,
            top_contributors: Vec::new(),
            all_contributors: Vec::new(),
            commit_activity: Vec::new(),
            plot_path: "commit_activity.png".to_owned(),
            current_metric: "Commits".to_owned(),
            average_commit_size: Ratio::zero(),
            commit_frequency: Tally::new(),
            top_contributors_by_lines: Vec::new(),
            update_needed: false,
            is_analyzing: false,
            use_log_scale: false,
            selected_branch: "main".to_owned(),
            selected_contributor: "All".to_owned(),
            available_branches: Vec::new(),
            analysis_cache: CacheManager::new(),
            last_analysis_time: None,
            commits_per_second: None,
            processing_stats: String::new(),
            analysis_result: None,
            error_message: None,
            progress: None,
        }
    }
}

} // verus!
