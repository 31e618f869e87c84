//! Thinning an activity log for display.
//!
//! A log with more lines than wanted is cut into windows of equal size (the
//! last one may be shorter). Each window becomes one line: the date of its
//! first line, and the sums of its lines added and deleted.

use vstd::prelude::*;
use crate::stats::{added_in, deleted_in, log_of, LogLine};

verus! {

/// The number of lines that each window takes of a log of `len` lines, so
/// that about `target` windows come out: `len / target` rounded up, and the
/// whole log where `target` is zero.
pub open spec fn window_size(len: nat, target: nat) -> nat {
    if target == 0 {
        len
    } else {
        ((len + target - 1) / target as int) as nat
    }
}

/// The smaller of a window and what is left of a log.
pub open spec fn reach(left: nat, window: nat) -> int {
    if window <= left {
        window as int
    } else {
        left as int
    }
}

/// The log cut into windows of `window` lines, each summed into one line.
pub open spec fn windowed(log: Seq<LogLine>, window: nat) -> Seq<LogLine>
    decreases log.len(),
{
    if log.len() == 0 || window == 0 {
        Seq::empty()
    } else {
        let head = log.take(reach(log.len(), window));
        seq![(log[0].0, added_in(head), deleted_in(head))] + windowed(
            log.skip(reach(log.len(), window)),
            window,
        )
    }
}

/// The sums of every window fit the machine word.
pub open spec fn windows_fit(log: Seq<LogLine>, window: nat) -> bool
    decreases log.len(),
{
    if log.len() == 0 || window == 0 {
        true
    } else {
        let head = log.take(reach(log.len(), window));
        &&& added_in(head) <= usize::MAX
        &&& deleted_in(head) <= usize::MAX
        &&& windows_fit(log.skip(reach(log.len(), window)), window)
    }
}

/// The log as it is shown with about `target` lines: unchanged where it has
/// no more than that, else cut into windows and summed.
pub open spec fn aggregated(log: Seq<LogLine>, target: nat) -> Seq<LogLine> {
    if log.len() <= target {
        log
    } else {
        windowed(log, window_size(log.len(), target))
    }
}

/// Whether the log can be shown with about `target` lines without a sum
/// that exceeds the machine word.
pub open spec fn can_aggregate(log: Seq<LogLine>, target: nat) -> bool {
    log.len() <= target || windows_fit(log, window_size(log.len(), target))
}

/// A log whose totals fit the machine word can be cut into windows of any
/// size.
pub proof fn lemma_totals_fit_windows(log: Seq<LogLine>, window: nat)
    requires
        added_in(log) <= usize::MAX,
        deleted_in(log) <= usize::MAX,
    ensures
        windows_fit(log, window),
    decreases log.len(),
{
    if log.len() > 0 && window > 0 {
        let k = reach(log.len(), window);
        assert(log =~= log.take(k) + log.skip(k));
        crate::stats::lemma_lines_concat(log.take(k), log.skip(k));
        lemma_totals_fit_windows(log.skip(k), window);
    }
}

/// The sums of the lines `from..to` of `data`.
fn sum_window(data: &[(String, usize, usize)], from: usize, to: usize) -> (sums: (usize, usize))
    requires
        from <= to <= data@.len(),
        added_in(log_of(data@).subrange(from as int, to as int)) <= usize::MAX,
        deleted_in(log_of(data@).subrange(from as int, to as int)) <= usize::MAX,
    ensures
        sums.0 == added_in(log_of(data@).subrange(from as int, to as int)),
        sums.1 == deleted_in(log_of(data@).subrange(from as int, to as int)),
{
    let ghost log = log_of(data@);
    let ghost part = log.subrange(from as int, to as int);
    let mut added: usize = 0;
    let mut deleted: usize = 0;
    let mut i: usize = from;
    assert(part.take(0) =~= Seq::<LogLine>::empty());
    while i < to
        invariant
            from <= i <= to,
            to <= data@.len(),
            log == log_of(data@),
            part == log.subrange(from as int, to as int),
            added == added_in(part.take(i - from)),
            deleted == deleted_in(part.take(i - from)),
            added_in(part) <= usize::MAX,
            deleted_in(part) <= usize::MAX,
        decreases to - i,
    {
        proof {
            let k = i - from;
            assert(part.take(k + 1).drop_last() =~= part.take(k));
            assert(part.take(k + 1).last() == log[i as int]);
            assert(part =~= part.take(k + 1) + part.skip(k + 1));
            crate::stats::lemma_lines_concat(part.take(k + 1), part.skip(k + 1));
        }
        added = added + data[i].1;
        deleted = deleted + data[i].2;
        i += 1;
    }
    assert(part.take(to - from) =~= part);
    (added, deleted)
}

/// The number of lines in each window, for a log that has more than
/// `target` lines.
fn window_for(len: usize, target: usize) -> (window: usize)
    requires
        target < len,
    ensures
        window == window_size(len as nat, target as nat),
        1 <= window <= len,
{
    if target == 0 {
        len
    } else {
        let whole = len / target;
        let rest = len % target;
        assert(len == whole * target + rest) by (nonlinear_arith)
            requires
                whole == len / target,
                rest == len % target,
                target > 0,
        ;
        assert(whole >= 1) by (nonlinear_arith)
            requires
                whole == len / target,
                target > 0,
                target < len,
        ;
        if rest == 0 {
            assert((whole * target + target - 1) / target as int == whole) by (nonlinear_arith)
                requires
                    target > 0,
            ;
            assert(whole <= len) by (nonlinear_arith)
                requires
                    len == whole * target,
                    target > 0,
                    whole >= 1,
            ;
            whole
        } else {
            assert((whole * target + rest + target - 1) / target as int == whole + 1)
                by (nonlinear_arith)
                requires
                    target > 0,
                    0 < rest < target,
            ;
            assert(whole + 1 <= len) by (nonlinear_arith)
                requires
                    len == whole * target + rest,
                    target > 0,
                    whole >= 1,
                    rest > 0,
            ;
            whole + 1
        }
    }
}

/// A copy of `data`.
fn copy_lines(data: &[(String, usize, usize)]) -> (copy: Vec<(String, usize, usize)>)
    ensures
        log_of(copy@) == log_of(data@),
{
    let ghost log = log_of(data@);
    let mut copy: Vec<(String, usize, usize)> = Vec::new();
    let mut i: usize = 0;
    while i < data.len()
        invariant
            0 <= i <= data@.len(),
            log == log_of(data@),
            log_of(copy@) =~= log.take(i as int),
        decreases data@.len() - i,
    {
        let ghost before = log_of(copy@);
        let date = data[i].0.clone();
        copy.push((date, data[i].1, data[i].2));
        assert(log_of(copy@) =~= before.push(log[i as int]));
        i += 1;
    }
    assert(log.take(data@.len() as int) =~= log);
    copy
}

/// Cuts `data` into windows of `window` lines and sums each into one line.
fn sum_windows(data: &[(String, usize, usize)], window: usize) -> (shown: Vec<
    (String, usize, usize),
>)
    requires
        window >= 1,
        windows_fit(log_of(data@), window as nat),
    ensures
        log_of(shown@) == windowed(log_of(data@), window as nat),
{
    let ghost log = log_of(data@);
    let mut shown: Vec<(String, usize, usize)> = Vec::new();
    let mut start: usize = 0;
    assert(log.skip(0) =~= log);
    while start < data.len()
        invariant
            0 <= start <= data@.len(),
            1 <= window,
            log == log_of(data@),
            windows_fit(log.skip(start as int), window as nat),
            log_of(shown@) + windowed(log.skip(start as int), window as nat) =~= windowed(
                log,
                window as nat,
            ),
        decreases data@.len() - start,
    {
        let left = data.len() - start;
        let end = if window <= left {
            start + window
        } else {
            data.len()
        };
        let ghost rest = log.skip(start as int);
        let ghost k = reach(rest.len(), window as nat);
        proof {
            assert(k == end - start);
            assert(rest.take(k) =~= log.subrange(start as int, end as int));
            assert(rest.skip(k) =~= log.skip(end as int));
            assert(rest[0] == log[start as int]);
        }
        let sums = sum_window(data, start, end);
        let ghost before = log_of(shown@);
        shown.push((data[start].0.clone(), sums.0, sums.1));
        proof {
            let line = (log[start as int].0, sums.0 as nat, sums.1 as nat);
            assert(log_of(shown@) =~= before + seq![line]);
            assert(windowed(rest, window as nat) =~= seq![line] + windowed(
                log.skip(end as int),
                window as nat,
            ));
        }
        start = end;
    }
    assert(windowed(log.skip(start as int), window as nat) =~= Seq::<LogLine>::empty());
    shown
}

/// Thins `data` to about `target_points` lines. A log with no more lines
/// than that is copied. A longer one is cut into windows of
/// `len / target_points` lines, rounded up (one window where
/// `target_points` is zero); each window gives the date of its first line
/// and the sums of its lines added and deleted.
pub fn aggregate_data(data: &[(String, usize, usize)], target_points: usize) -> (shown: Vec<
    (String, usize, usize),
>)
    requires
        can_aggregate(log_of(data@), target_points as nat),
    ensures
        log_of(shown@) == aggregated(log_of(data@), target_points as nat),
{
    if data.len() <= target_points {
        copy_lines(data)
    } else {
        sum_windows(data, window_for(data.len(), target_points))
    }
}

/// The number of lines from which on a log is thinned for a plot.
pub const SMART_THRESHOLD: usize = 1000;

/// The number of lines that a thinned log has, or about as many.
pub const SMART_TARGET: usize = 500;

/// The log as a plot shows it: unchanged where it has fewer than a
/// thousand lines, else cut into about five hundred windows and summed.
pub open spec fn smart_aggregated(log: Seq<LogLine>) -> Seq<LogLine> {
    if log.len() < SMART_THRESHOLD {
        log
    } else {
        windowed(log, window_size(log.len(), SMART_TARGET as nat))
    }
}

/// Whether the log can be thinned for a plot without a sum that exceeds
/// the machine word.
pub open spec fn can_smart_aggregate(log: Seq<LogLine>) -> bool {
    log.len() < SMART_THRESHOLD || windows_fit(log, window_size(log.len(), SMART_TARGET as nat))
}

/// Thins `data` for a plot: a log of fewer than a thousand lines is
/// copied, a longer one is cut into about five hundred windows, each
/// summed into one line.
pub fn smart_aggregate_data(data: &[(String, usize, usize)]) -> (shown: Vec<
    (String, usize, usize),
>)
    requires
        can_smart_aggregate(log_of(data@)),
    ensures
        log_of(shown@) == smart_aggregated(log_of(data@)),
{
    if data.len() < SMART_THRESHOLD {
        copy_lines(data)
    } else {
        sum_windows(data, window_for(data.len(), SMART_TARGET))
    }
}

/// Whether `data` can be thinned to about `target_points` lines without a
/// sum that exceeds the machine word.
pub fn can_aggregate_data(data: &[(String, usize, usize)], target_points: usize) -> (fits: bool)
    ensures
        fits == can_aggregate(log_of(data@), target_points as nat),
{
    let ghost log = log_of(data@);
    if data.len() <= target_points {
        return true;
    }
    let window = window_for(data.len(), target_points);
    let mut start: usize = 0;
    assert(log.skip(0) =~= log);
    while start < data.len()
        invariant
            0 <= start <= data@.len(),
            1 <= window,
            log == log_of(data@),
            target_points < data@.len(),
            window == window_size(data@.len() as nat, target_points as nat),
            windows_fit(log.skip(start as int), window as nat) == windows_fit(
                log,
                window as nat,
            ),
        decreases data@.len() - start,
    {
        let left = data.len() - start;
        let end = if window <= left {
            start + window
        } else {
            data.len()
        };
        let ghost rest = log.skip(start as int);
        let ghost k = reach(rest.len(), window as nat);
        proof {
            assert(k == end - start);
            assert(rest.take(k) =~= log.subrange(start as int, end as int));
            assert(rest.skip(k) =~= log.skip(end as int));
        }
        let fits = window_fits(data, start, end);
        assert(windows_fit(rest, window as nat) == (fits && windows_fit(
            log.skip(end as int),
            window as nat,
        )));
        if !fits {
            return false;
        }
        start = end;
    }
    assert(windows_fit(log.skip(start as int), window as nat));
    true
}

/// Whether the sums of the lines `from..to` of `data` fit the machine word.
fn window_fits(data: &[(String, usize, usize)], from: usize, to: usize) -> (fits: bool)
    requires
        from <= to <= data@.len(),
    ensures
        fits == (added_in(log_of(data@).subrange(from as int, to as int)) <= usize::MAX
            && deleted_in(log_of(data@).subrange(from as int, to as int)) <= usize::MAX),
{
    let ghost log = log_of(data@);
    let ghost part = log.subrange(from as int, to as int);
    let mut added: usize = 0;
    let mut deleted: usize = 0;
    let mut i: usize = from;
    assert(part.take(0) =~= Seq::<LogLine>::empty());
    while i < to
        invariant
            from <= i <= to,
            to <= data@.len(),
            log == log_of(data@),
            part == log.subrange(from as int, to as int),
            added == added_in(part.take(i - from)),
            deleted == deleted_in(part.take(i - from)),
        decreases to - i,
    {
        proof {
            let k = i - from;
            assert(part.take(k + 1).drop_last() =~= part.take(k));
            assert(part.take(k + 1).last() == log[i as int]);
            assert(part =~= part.take(k + 1) + part.skip(k + 1));
            crate::stats::lemma_lines_concat(part.take(k + 1), part.skip(k + 1));
        }
        if data[i].1 > usize::MAX - added || data[i].2 > usize::MAX - deleted {
            return false;
        }
        added = added + data[i].1;
        deleted = deleted + data[i].2;
        i += 1;
    }
    assert(part.take(to - from) =~= part);
    true
}

} // verus!
