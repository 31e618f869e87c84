//! Commit-history statistics for a version-controlled repository.
//!
//! An analysis enumerates the commits that can be reached from a branch,
//! cuts them into chunks, counts each chunk under a contributor filter, and
//! merges the counts into one result: totals of commits and of lines added
//! and deleted, an activity log, the contributors with the most commits, the
//! lines changed per commit, and the commits of each month.
//!
//! The modules, from the bottom up:
//!
//! - [`text`]: the order and equality of names;
//! - [`tally`]: counts by name, modelled as a multiset;
//! - [`stats`]: what a worker has counted, and how counts merge;
//! - [`calendar`], [`commits`]: the date and the line counts of a commit,
//!   and the counting of a chunk;
//! - [`git`], [`worker`]: reading the commits of a chunk from a repository;
//! - [`schedule`], [`progress`]: the chunks, the size of the worker pool,
//!   and the snapshots of the progress;
//! - [`ranking`], [`result`], [`summary`]: from the merged counts to the
//!   result;
//! - [`branches`], [`analysis`]: the branches of a repository and the
//!   analysis as a whole;
//! - [`cache`], [`session`]: finished analyses and the state of a session;
//! - [`aggregation`], [`styles`]: thinning a log for display;
//! - [`laws`]: what holds of counting and merging, whatever the commits.
//!
//! Every function is verified not to panic and to meet its contract. The
//! calls into git2, chrono and num_cpus and the reading of the clock are
//! trusted: each stands in a function of its own whose documentation says
//! what is taken on trust.

pub mod aggregation;
pub mod analysis;
pub mod branches;
pub mod cache;
pub mod calendar;
pub mod clock;
pub mod commits;
pub mod errors;
pub mod git;
pub mod laws;
pub mod progress;
pub mod ranking;
pub mod result;
pub mod schedule;
pub mod session;
pub mod stats;
pub mod styles;
pub mod summary;
pub mod tally;
pub mod text;
pub mod types;
pub mod worker;

pub use cache::CacheManager;
pub use session::App as GitStatsApp;
pub use types::{AnalysisResult, CacheKey};
