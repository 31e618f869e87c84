use gitstats::result::{
    aggregate, average_commit_size, commit_frequency, summarize, MONTH_CHARS, TOP_CONTRIBUTORS,
};
use gitstats::stats::PartialStats;
use gitstats::summary::{decimal, processing_summary};
use gitstats::types::Ratio;

fn counted(commits: &[(&str, &str, usize, usize)]) -> PartialStats {
    let mut stats = PartialStats::new();
    for (author, date, added, deleted) in commits {
        stats.count_commit(author, date.to_string(), *added, *deleted);
    }
    stats
}

#[test]
fn the_average_of_no_commits_is_zero() {
    assert_eq!(
        average_commit_size(0, 0, 0),
        Ratio { numerator: 0, denominator: 1 }
    );
    assert_eq!(
        average_commit_size(0, 10, 5),
        Ratio { numerator: 0, denominator: 1 }
    );
}

#[test]
fn the_average_is_the_lines_changed_per_commit() {
    assert_eq!(
        average_commit_size(2, 10, 0),
        Ratio { numerator: 10, denominator: 2 }
    );
    assert_eq!(average_commit_size(2, 10, 0).whole(), 5);
    assert_eq!(average_commit_size(2, 10, 0).remainder(), 0);
    assert_eq!(
        average_commit_size(4, 7, 3),
        Ratio { numerator: 10, denominator: 4 }
    );
    assert_eq!(average_commit_size(4, 7, 3).whole(), 2);
    assert_eq!(average_commit_size(4, 7, 3).remainder(), 2);
    assert_eq!(
        average_commit_size(3, 0, 0),
        Ratio { numerator: 0, denominator: 3 }
    );
}

#[test]
fn the_average_of_the_largest_totals_fits() {
    assert_eq!(
        average_commit_size(1, usize::MAX, usize::MAX),
        Ratio { numerator: 2 * (usize::MAX as u128), denominator: 1 }
    );
}

#[test]
fn commits_are_counted_by_month() {
    assert_eq!(MONTH_CHARS, 7);
    let log = vec![
        ("2023-01-01".to_string(), 1, 1),
        ("2023-01-15".to_string(), 1, 1),
        ("2023-02-01".to_string(), 1, 1),
        ("Unknown".to_string(), 0, 0),
        ("2023-01-31".to_string(), 1, 1),
        ("2023".to_string(), 1, 1),
    ];
    let months = commit_frequency(&log);
    assert_eq!(months.count_of("2023-01"), 3);
    assert_eq!(months.count_of("2023-02"), 1);
    assert_eq!(months.count_of("Unknown"), 1);
    assert_eq!(months.count_of("2023"), 1);
    assert_eq!(months.count_of("2023-01-01"), 0);
    assert_eq!(months.total(), 6);
    assert_eq!(commit_frequency(&Vec::new()).total(), 0);
}

#[test]
fn a_summary_hands_the_counts_on() {
    let stats = counted(&[
        ("alice", "2023-01-01", 10, 5),
        ("bob", "2023-01-02", 3, 4),
        ("alice", "2023-02-02", 2, 0),
    ]);
    let result = summarize(
        &stats,
        vec!["main".to_string(), "develop".to_string()],
        1500,
        "summary".to_string(),
    );
    assert_eq!(result.commit_count, 3);
    assert_eq!(result.total_lines_added, 15);
    assert_eq!(result.total_lines_deleted, 9);
    assert_eq!(
        result.top_contributors,
        vec![("alice".to_string(), 2), ("bob".to_string(), 1)]
    );
    assert_eq!(result.top_contributors_by_lines, result.top_contributors);
    assert_eq!(&result.commit_activity, stats.activity_log());
    assert_eq!(
        result.average_commit_size,
        Ratio { numerator: 24, denominator: 3 }
    );
    assert_eq!(result.commit_frequency.count_of("2023-01"), 2);
    assert_eq!(result.commit_frequency.count_of("2023-02"), 1);
    assert_eq!(result.available_branches, vec!["main", "develop"]);
    assert_eq!(result.elapsed_time, 1500);
    assert_eq!(result.processing_stats, "summary");
}

#[test]
fn a_summary_of_nothing_is_empty() {
    let result = summarize(&PartialStats::new(), Vec::new(), 0, String::new());
    assert_eq!(result.commit_count, 0);
    assert!(result.top_contributors.is_empty());
    assert!(result.commit_activity.is_empty());
    assert_eq!(
        result.average_commit_size,
        Ratio { numerator: 0, denominator: 1 }
    );
    assert_eq!(result.commit_frequency.total(), 0);
}

#[test]
fn a_summary_ranks_five_contributors() {
    assert_eq!(TOP_CONTRIBUTORS, 5);
    let mut stats = PartialStats::new();
    for (author, commits) in [("a", 1), ("b", 6), ("c", 3), ("d", 6), ("e", 2), ("f", 4), ("g", 5)] {
        for _ in 0..commits {
            stats.count_commit(author, "2023-01-01".to_string(), 1, 0);
        }
    }
    let result = summarize(&stats, Vec::new(), 0, String::new());
    assert_eq!(
        result.top_contributors,
        vec![
            ("b".to_string(), 6),
            ("d".to_string(), 6),
            ("g".to_string(), 5),
            ("f".to_string(), 4),
            ("c".to_string(), 3),
        ]
    );
    assert_eq!(result.top_contributors_by_lines, result.top_contributors);
}

#[test]
fn aggregating_merges_the_parts_in_their_order() {
    let parts = vec![
        counted(&[("alice", "2023-01-01", 10, 5)]),
        counted(&[]),
        counted(&[("bob", "2023-03-02", 3, 4), ("alice", "2023-02-02", 2, 0)]),
    ];
    let result = aggregate(parts, vec!["main".to_string()], 20, "ok".to_string()).unwrap();
    assert_eq!(result.commit_count, 3);
    assert_eq!(result.total_lines_added, 15);
    assert_eq!(result.total_lines_deleted, 9);
    let dates: Vec<&str> = result.commit_activity.iter().map(|e| e.0.as_str()).collect();
    assert_eq!(dates, vec!["2023-01-01", "2023-03-02", "2023-02-02"]);
    assert_eq!(result.average_commit_size.whole(), 8);
}

#[test]
fn aggregating_refuses_totals_beyond_the_machine_word() {
    let parts = vec![
        counted(&[("alice", "2023-01-01", usize::MAX, 0)]),
        counted(&[("bob", "2023-03-02", 1, 0)]),
    ];
    assert!(aggregate(parts, Vec::new(), 0, String::new()).is_none());
}

#[test]
fn the_processing_summary_names_the_numbers() {
    assert_eq!(
        processing_summary(120, 1500, 100, 3),
        "Processed 120 commits in 1.50s\nCommits/sec: 80.0\nChunk size: 100\nParallel tasks: 3"
    );
    assert_eq!(
        processing_summary(7, 2049, 2000, 12),
        "Processed 7 commits in 2.04s\nCommits/sec: 3.4\nChunk size: 2000\nParallel tasks: 12"
    );
    assert_eq!(
        processing_summary(0, 5, 100, 1),
        "Processed 0 commits in 0.00s\nCommits/sec: 0.0\nChunk size: 100\nParallel tasks: 1"
    );
}

#[test]
fn a_run_of_no_time_is_reckoned_as_one_millisecond() {
    assert_eq!(
        processing_summary(3, 0, 100, 1),
        "Processed 3 commits in 0.00s\nCommits/sec: 3000.0\nChunk size: 100\nParallel tasks: 1"
    );
}

#[test]
fn numbers_are_written_in_decimal_digits() {
    assert_eq!(decimal(0), "0");
    assert_eq!(decimal(7), "7");
    assert_eq!(decimal(10), "10");
    assert_eq!(decimal(1234567890), "1234567890");
    assert_eq!(decimal(u128::MAX), u128::MAX.to_string());
    for number in [9u128, 11, 99, 100, 101, 909, 1000, 65_535, 4_294_967_296] {
        assert_eq!(decimal(number), number.to_string());
    }
}
