//! Estimating the progress of an analysis.
//!
//! A snapshot says how many commits of how many are processed, how long the
//! analysis has run, how fast it goes, and how long it will take in all. The
//! rate and the times are exact quotients; a snapshot is made for display
//! and decides nothing.

use vstd::prelude::*;
use vstd::string::*;
use crate::summary::{append_decimal, decimal_text, digit_text};
use crate::types::Ratio;

verus! {

/// The rate, in commits per second, that is assumed before any chunk is
/// done.
pub const ASSUMED_RATE: u128 = 200;

/// The largest denominator of a ratio that is written with one decimal.
pub const LARGEST_DENOMINATOR: u128 = 0x0800_0000_0000_0000_0000_0000_0000_0000;

/// A finite ratio in tenths, rounded to the nearest tenth, a half upwards.
pub open spec fn tenths_of(ratio: Ratio) -> nat {
    if ratio.denominator == 0 {
        0
    } else {
        ((ratio.numerator * 10 + ratio.denominator / 2) / (ratio.denominator as int)) as nat
    }
}

/// A ratio with one decimal: "12.5". A ratio without finite value is
/// written "inf", and "NaN" where its numerator is zero too.
pub open spec fn one_decimal_text(ratio: Ratio) -> Seq<char> {
    if ratio.denominator != 0 {
        decimal_text(tenths_of(ratio) / 10) + "."@ + digit_text(tenths_of(ratio) % 10)
    } else if ratio.numerator != 0 {
        "inf"@
    } else {
        "NaN"@
    }
}

/// Writes a ratio with one decimal behind `text`.
pub fn append_one_decimal(text: &mut String, ratio: Ratio)
    requires
        ratio.denominator <= LARGEST_DENOMINATOR,
    ensures
        final(text)@ == old(text)@ + one_decimal_text(ratio),
{
    if ratio.denominator == 0 {
        if ratio.numerator != 0 {
            text.append("inf");
        } else {
            text.append("NaN");
        }
        return ;
    }
    let whole = ratio.numerator / ratio.denominator;
    let rest = ratio.numerator % ratio.denominator;
    assert(rest * 10 + ratio.denominator / 2 <= u128::MAX) by (nonlinear_arith)
        requires
            rest < ratio.denominator,
            ratio.denominator <= LARGEST_DENOMINATOR,
    ;
    let tenth = (rest * 10 + ratio.denominator / 2) / ratio.denominator;
    proof {
        let n = ratio.numerator as int;
        let d = ratio.denominator as int;
        let w = whole as int;
        let r = rest as int;
        let t = tenth as int;
        assert(n == w * d + r && 0 <= r < d) by (nonlinear_arith)
            requires
                w == n / d,
                r == n % d,
                d > 0,
                n >= 0,
        ;
        assert((n * 10 + d / 2) / d == w * 10 + t) by (nonlinear_arith)
            requires
                n == w * d + r,
                t == (r * 10 + d / 2) / d,
                d > 0,
        ;
        assert(0 <= t <= 10) by (nonlinear_arith)
            requires
                t == (r * 10 + d / 2) / d,
                0 <= r < d,
        ;
        assert(tenths_of(ratio) == w * 10 + t);
        if t == 10 {
            assert(d >= 2) by (nonlinear_arith)
                requires
                    10 == (r * 10 + d / 2) / d,
                    0 <= r < d,
            ;
            assert(w + 1 <= u128::MAX) by (nonlinear_arith)
                requires
                    n == w * d + r,
                    d >= 2,
                    r >= 0,
                    n <= u128::MAX,
                    w >= 0,
            ;
        }
    }
    let ghost start = text@;
    if tenth == 10 {
        append_decimal(text, whole + 1);
        text.append(".");
        text.append("0");
    } else {
        append_decimal(text, whole);
        text.append(".");
        append_decimal(text, tenth);
    }
    assert(text@ =~= start + one_decimal_text(ratio));
}

/// A snapshot of the progress of an analysis.
#[derive(Clone, Copy, Debug, PartialEq, Eq, Structural)]
pub struct ProgressEstimate {
    /// The number of commits to process.
    pub total_commits: usize,
    /// The number of commits processed so far.
    pub processed_commits: usize,
    /// The time that the whole analysis is expected to take, in seconds.
    pub estimated_total_time: Ratio,
    /// The time since the analysis began, in milliseconds.
    pub elapsed_time: u64,
    /// The commits processed per second.
    pub commits_per_second: Ratio,
}

/// The snapshot at the start of an analysis of `total` commits.
pub open spec fn initial_snapshot(total: nat) -> ProgressEstimate {
    ProgressEstimate {
        total_commits: total as usize,
        processed_commits: 0,
        estimated_total_time: Ratio { numerator: total as u128, denominator: ASSUMED_RATE },
        elapsed_time: 0,
        commits_per_second: Ratio { numerator: ASSUMED_RATE, denominator: 1 },
    }
}

/// The snapshot after `processed` of `total` commits were processed in
/// `elapsed` milliseconds: the rate is the commits processed per second of
/// that time, and the whole is expected to take the time that `total`
/// commits take at that rate.
pub open spec fn snapshot_after(total: nat, processed: nat, elapsed: nat) -> ProgressEstimate {
    ProgressEstimate {
        total_commits: total as usize,
        processed_commits: processed as usize,
        estimated_total_time: Ratio {
            numerator: (total * elapsed) as u128,
            denominator: (processed * 1000) as u128,
        },
        elapsed_time: elapsed as u64,
        commits_per_second: Ratio {
            numerator: (processed * 1000) as u128,
            denominator: elapsed as u128,
        },
    }
}

impl ProgressEstimate {
    /// No more commits are processed than there are, and the rate is made
    /// of numbers that a snapshot can hold.
    pub open spec fn wf(&self) -> bool {
        &&& self.processed_commits <= self.total_commits
        &&& self.commits_per_second.denominator <= u64::MAX
        &&& self.commits_per_second.numerator <= LARGEST_DENOMINATOR
    }

    /// Whether the snapshot is well formed.
    pub fn is_wf(&self) -> (well_formed: bool)
        ensures
            well_formed == self.wf(),
    {
        self.processed_commits <= self.total_commits && self.commits_per_second.denominator
            <= u64::MAX as u128 && self.commits_per_second.numerator <= LARGEST_DENOMINATOR
    }

    /// The snapshot in three lines: the part that is processed, the time
    /// that is left, and the rate, each with one decimal.
    pub open spec fn text(&self) -> Seq<char> {
        one_decimal_text(self.percent()) + "% complete ("@ + decimal_text(
            self.processed_commits as nat,
        ) + "/"@ + decimal_text(self.total_commits as nat)
            + " commits)\nEstimated time remaining: "@ + one_decimal_text(self.remaining())
            + "s\nCommits/sec: "@ + one_decimal_text(self.commits_per_second)
    }

    /// The snapshot in three lines.
    pub fn format(&self) -> (text: String)
        requires
            self.wf(),
        ensures
            text@ == self.text(),
    {
        let mut text = String::new();
        append_one_decimal(&mut text, self.percent_complete());
        text.append("% complete (");
        append_decimal(&mut text, self.processed_commits as u128);
        text.append("/");
        append_decimal(&mut text, self.total_commits as u128);
        text.append(" commits)\nEstimated time remaining: ");
        append_one_decimal(&mut text, self.estimated_remaining_time());
        text.append("s\nCommits/sec: ");
        append_one_decimal(&mut text, self.commits_per_second);
        assert(text@ =~= self.text());
        text
    }

    /// The part of the commits that is processed, in percent: zero where
    /// there are no commits.
    pub open spec fn percent(&self) -> Ratio {
        if self.total_commits == 0 {
            Ratio { numerator: 0, denominator: 1 }
        } else {
            Ratio {
                numerator: (self.processed_commits * 100) as u128,
                denominator: self.total_commits as u128,
            }
        }
    }

    /// The time that the commits not yet processed take at the rate of the
    /// snapshot, in seconds: zero where the rate is zero.
    pub open spec fn remaining(&self) -> Ratio {
        if self.commits_per_second.numerator == 0 {
            Ratio { numerator: 0, denominator: 1 }
        } else {
            Ratio {
                numerator: ((self.total_commits - self.processed_commits)
                    * self.commits_per_second.denominator) as u128,
                denominator: self.commits_per_second.numerator,
            }
        }
    }

    /// The part of the commits that is processed, in percent.
    pub fn percent_complete(&self) -> (percent: Ratio)
        ensures
            percent == self.percent(),
    {
        if self.total_commits == 0 {
            Ratio::zero()
        } else {
            assert(self.processed_commits * 100 <= u128::MAX) by (nonlinear_arith)
                requires
                    self.processed_commits <= usize::MAX,
                    usize::MAX <= u64::MAX,
            ;
            Ratio {
                numerator: self.processed_commits as u128 * 100,
                denominator: self.total_commits as u128,
            }
        }
    }

    /// The time that is left at the rate of the snapshot, in seconds.
    pub fn estimated_remaining_time(&self) -> (remaining: Ratio)
        requires
            self.wf(),
        ensures
            remaining == self.remaining(),
    {
        if self.commits_per_second.numerator == 0 {
            Ratio::zero()
        } else {
            let left = self.total_commits - self.processed_commits;
            assert(left * self.commits_per_second.denominator <= u128::MAX) by (nonlinear_arith)
                requires
                    left <= u64::MAX,
                    self.commits_per_second.denominator <= u64::MAX,
            ;
            Ratio {
                numerator: left as u128 * self.commits_per_second.denominator,
                denominator: self.commits_per_second.numerator,
            }
        }
    }
}

/// The snapshot at the start of an analysis of `total_commits` commits.
pub fn initial_estimate(total_commits: usize) -> (estimate: ProgressEstimate)
    ensures
        estimate == initial_snapshot(total_commits as nat),
        estimate.wf(),
{
    ProgressEstimate {
        total_commits,
        processed_commits: 0,
        estimated_total_time: Ratio { numerator: total_commits as u128, denominator: ASSUMED_RATE },
        elapsed_time: 0,
        commits_per_second: Ratio { numerator: ASSUMED_RATE, denominator: 1 },
    }
}

/// The snapshot after `processed_commits` of `total_commits` commits were
/// processed in `elapsed_time` milliseconds.
pub fn estimate_after(total_commits: usize, processed_commits: usize, elapsed_time: u64) -> (estimate:
    ProgressEstimate)
    ensures
        estimate == snapshot_after(
            total_commits as nat,
            processed_commits as nat,
            elapsed_time as nat,
        ),
        processed_commits <= total_commits ==> estimate.wf(),
{
    assert(total_commits * elapsed_time <= u128::MAX && processed_commits * 1000 <= u128::MAX)
        by (nonlinear_arith)
        requires
            total_commits <= u64::MAX,
            processed_commits <= u64::MAX,
            elapsed_time <= u64::MAX,
    ;
    ProgressEstimate {
        total_commits,
        processed_commits,
        estimated_total_time: Ratio {
            numerator: total_commits as u128 * elapsed_time as u128,
            denominator: processed_commits as u128 * 1000,
        },
        elapsed_time,
        commits_per_second: Ratio {
            numerator: processed_commits as u128 * 1000,
            denominator: elapsed_time as u128,
        },
    }
}

/// The count of processed commits of one analysis.
#[derive(Clone, Copy, Debug, PartialEq, Eq, Structural)]
pub struct ProgressAggregator {
    total_commits: usize,
    processed_commits: usize,
}

impl ProgressAggregator {
    /// The number of commits to process.
    pub closed spec fn total(&self) -> nat {
        self.total_commits as nat
    }

    /// The number of commits processed so far.
    pub closed spec fn processed(&self) -> nat {
        self.processed_commits as nat
    }

    /// No more commits are processed than there are.
    pub closed spec fn wf(&self) -> bool {
        self.processed_commits <= self.total_commits
    }

    /// The count at the start of an analysis of `total_commits` commits.
    pub fn new(total_commits: usize) -> (progress: ProgressAggregator)
        ensures
            progress.wf(),
            progress.total() == total_commits,
            progress.processed() == 0,
    {
        ProgressAggregator { total_commits, processed_commits: 0 }
    }

    /// The number of commits to process.
    pub fn total_commits(&self) -> (total: usize)
        ensures
            total == self.total(),
    {
        self.total_commits
    }

    /// The number of commits processed so far.
    pub fn processed_commits(&self) -> (processed: usize)
        ensures
            processed == self.processed(),
    {
        self.processed_commits
    }

    /// The commits that are still to be processed.
    pub fn outstanding(&self) -> (left: usize)
        requires
            self.wf(),
        ensures
            left == self.total() - self.processed(),
    {
        self.total_commits - self.processed_commits
    }

    /// Counts a finished chunk of `chunk_len` commits and makes the
    /// snapshot for `elapsed_time` milliseconds since the start. The count
    /// never goes down.
    pub fn chunk_done(&mut self, chunk_len: usize, elapsed_time: u64) -> (estimate:
        ProgressEstimate)
        requires
            old(self).wf(),
            old(self).processed() + chunk_len <= old(self).total(),
        ensures
            final(self).wf(),
            final(self).total() == old(self).total(),
            final(self).processed() == old(self).processed() + chunk_len,
            final(self).processed() >= old(self).processed(),
            estimate == snapshot_after(
                final(self).total(),
                final(self).processed(),
                elapsed_time as nat,
            ),
            estimate.wf(),
    {
        self.processed_commits = self.processed_commits + chunk_len;
        estimate_after(self.total_commits, self.processed_commits, elapsed_time)
    }
}

} // verus!
