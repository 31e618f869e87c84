use gitstats::calendar::{commit_date, date_label};
use gitstats::commits::{
    author_label, commit_line_stats, count_record, filter_accepts, process_records, sum_hunks,
    CommitRecord, LineChange,
};
use gitstats::errors::{AnalysisError, ChunkTaskError};
use gitstats::stats::PartialStats;

fn change(added: usize, deleted: usize) -> Option<LineChange> {
    Some(LineChange { added, deleted })
}

fn record(author: Option<&str>, seconds: i64, diffs: Vec<Option<LineChange>>) -> CommitRecord {
    CommitRecord {
        author: author.map(|name| name.to_string()),
        seconds,
        diffs,
    }
}

#[test]
fn the_filter_all_accepts_everyone() {
    assert!(filter_accepts("All", "alice"));
    assert!(filter_accepts("All", "Unknown"));
    assert!(filter_accepts("All", ""));
}

#[test]
fn another_filter_accepts_one_author() {
    assert!(filter_accepts("alice", "alice"));
    assert!(!filter_accepts("alice", "bob"));
    assert!(!filter_accepts("alice", "Alice"));
    assert!(!filter_accepts("all", "alice"));
    assert!(!filter_accepts("", "alice"));
}

#[test]
fn a_commit_without_author_is_attributed_to_unknown() {
    assert_eq!(author_label(&None), "Unknown");
    assert_eq!(author_label(&Some("alice".to_string())), "alice");
    assert_eq!(author_label(&Some(String::new())), "");
}

#[test]
fn a_date_that_cannot_be_had_is_unknown() {
    assert_eq!(date_label(None), "Unknown");
    assert_eq!(date_label(Some("2023-01-01".to_string())), "2023-01-01");
}

#[test]
fn commit_dates_are_calendar_dates_in_utc() {
    assert_eq!(commit_date(0), "1970-01-01");
    assert_eq!(commit_date(86_399), "1970-01-01");
    assert_eq!(commit_date(86_400), "1970-01-02");
    assert_eq!(commit_date(-1), "1969-12-31");
    assert_eq!(commit_date(951_782_400), "2000-02-29");
    assert_eq!(commit_date(1_700_000_000), "2023-11-14");
}

#[test]
fn a_timestamp_out_of_range_gives_unknown() {
    assert_eq!(commit_date(i64::MAX), "Unknown");
    assert_eq!(commit_date(i64::MIN), "Unknown");
}

#[test]
fn hunks_are_summed() {
    assert_eq!(sum_hunks(&vec![]), change(0, 0));
    assert_eq!(sum_hunks(&vec![(10, 0)]), change(10, 0));
    assert_eq!(sum_hunks(&vec![(1, 2), (3, 4), (5, 6)]), change(9, 12));
    assert_eq!(
        sum_hunks(&vec![(u32::MAX, u32::MAX), (u32::MAX, 1)]),
        change(2 * (u32::MAX as usize), u32::MAX as usize + 1)
    );
}

#[test]
fn a_root_commit_has_its_diff_against_the_empty_tree() {
    assert_eq!(
        commit_line_stats(&vec![change(12, 0)]),
        LineChange { added: 12, deleted: 0 }
    );
}

#[test]
fn a_commit_with_one_parent_has_that_diff() {
    assert_eq!(
        commit_line_stats(&vec![change(3, 9)]),
        LineChange { added: 3, deleted: 9 }
    );
}

#[test]
fn a_merge_has_the_elementwise_maximum() {
    assert_eq!(
        commit_line_stats(&vec![change(10, 1), change(2, 8)]),
        LineChange { added: 10, deleted: 8 }
    );
    assert_eq!(
        commit_line_stats(&vec![change(1, 1), change(5, 0), change(3, 7)]),
        LineChange { added: 5, deleted: 7 }
    );
    // The maximum, not the sum.
    assert_eq!(
        commit_line_stats(&vec![change(4, 4), change(4, 4)]),
        LineChange { added: 4, deleted: 4 }
    );
}

#[test]
fn a_failed_comparison_counts_no_lines() {
    assert_eq!(
        commit_line_stats(&vec![None]),
        LineChange { added: 0, deleted: 0 }
    );
    assert_eq!(
        commit_line_stats(&vec![None, change(2, 3)]),
        LineChange { added: 2, deleted: 3 }
    );
    assert_eq!(
        commit_line_stats(&vec![]),
        LineChange { added: 0, deleted: 0 }
    );
}

#[test]
fn records_are_counted_in_order() {
    let records = vec![
        record(Some("alice"), 0, vec![change(10, 0)]),
        record(Some("bob"), 86_400, vec![change(1, 2)]),
        record(None, 172_800, vec![change(4, 4), change(6, 1)]),
        record(Some("alice"), i64::MAX, vec![None]),
    ];
    let stats = process_records(&records, "All").unwrap();
    assert_eq!(stats.commit_count(), 4);
    assert_eq!(stats.lines_added(), 17);
    assert_eq!(stats.lines_deleted(), 6);
    assert_eq!(
        stats.activity_log(),
        &vec![
            ("1970-01-01".to_string(), 10, 0),
            ("1970-01-02".to_string(), 1, 2),
            ("1970-01-03".to_string(), 6, 4),
            ("Unknown".to_string(), 0, 0),
        ]
    );
    assert_eq!(stats.author_counts().count_of("alice"), 2);
    assert_eq!(stats.author_counts().count_of("bob"), 1);
    assert_eq!(stats.author_counts().count_of("Unknown"), 1);
}

#[test]
fn a_filter_counts_one_author_only() {
    let records = vec![
        record(Some("alice"), 0, vec![change(10, 0)]),
        record(Some("bob"), 86_400, vec![change(1, 2)]),
        record(Some("alice"), 172_800, vec![change(5, 5)]),
    ];
    let stats = process_records(&records, "alice").unwrap();
    assert_eq!(stats.commit_count(), 2);
    assert_eq!(stats.lines_added(), 15);
    assert_eq!(stats.lines_deleted(), 5);
    assert_eq!(stats.author_counts().count_of("alice"), 2);
    assert_eq!(stats.author_counts().count_of("bob"), 0);
    assert_eq!(stats.activity_log().len(), 2);
}

#[test]
fn a_filter_without_match_counts_nothing() {
    let records = vec![
        record(Some("alice"), 0, vec![change(10, 0)]),
        record(Some("bob"), 86_400, vec![change(1, 2)]),
    ];
    let stats = process_records(&records, "carol").unwrap();
    assert_eq!(stats.commit_count(), 0);
    assert_eq!(stats.lines_added(), 0);
    assert_eq!(stats.lines_deleted(), 0);
    assert!(stats.activity_log().is_empty());
    assert_eq!(stats.author_counts().len(), 0);
}

#[test]
fn the_filter_unknown_counts_commits_without_author() {
    let records = vec![
        record(None, 0, vec![change(10, 0)]),
        record(Some("bob"), 86_400, vec![change(1, 2)]),
    ];
    let stats = process_records(&records, "Unknown").unwrap();
    assert_eq!(stats.commit_count(), 1);
    assert_eq!(stats.lines_added(), 10);
}

fn history() -> Vec<CommitRecord> {
    vec![
        record(Some("alice"), 0, vec![change(10, 0)]),
        record(Some("bob"), 86_400, vec![change(1, 2)]),
        record(Some("carol"), 172_800, vec![change(4, 4), change(6, 1)]),
        record(Some("alice"), 259_200, vec![change(0, 3)]),
        record(Some("bob"), 345_600, vec![None]),
        record(None, 432_000, vec![change(2, 2)]),
        record(Some("alice"), 518_400, vec![change(7, 7)]),
    ]
}

#[test]
fn any_partition_gives_the_totals_of_the_whole() {
    let whole = process_records(&history(), "All").unwrap();
    let cuts: Vec<Vec<usize>> = vec![
        vec![],
        vec![1],
        vec![3],
        vec![6],
        vec![1, 2, 3, 4, 5, 6],
        vec![2, 5],
        vec![0, 7],
        vec![3, 3],
    ];
    for cut in cuts {
        let mut merged = PartialStats::new();
        let mut from = 0;
        let mut ends = cut.clone();
        ends.push(7);
        for end in ends {
            let mut all = history();
            let chunk: Vec<CommitRecord> = all.drain(from..end).collect();
            let part = process_records(&chunk, "All").unwrap();
            assert!(merged.can_merge(&part));
            merged.merge(part);
            from = end;
        }
        assert_eq!(merged.commit_count(), whole.commit_count());
        assert_eq!(merged.lines_added(), whole.lines_added());
        assert_eq!(merged.lines_deleted(), whole.lines_deleted());
        assert_eq!(merged.activity_log(), whole.activity_log());
        for name in ["alice", "bob", "carol", "Unknown"] {
            assert_eq!(
                merged.author_counts().count_of(name),
                whole.author_counts().count_of(name)
            );
        }
    }
    assert_eq!(whole.commit_count(), 7);
    assert_eq!(whole.lines_added(), 26);
    assert_eq!(whole.lines_deleted(), 18);
}

#[test]
fn counting_for_everyone_is_counting_each_author_alone() {
    let whole = process_records(&history(), "All").unwrap();
    let mut merged = PartialStats::new();
    for author in ["alice", "bob", "carol", "Unknown"] {
        let alone = process_records(&history(), author).unwrap();
        assert_eq!(alone.author_counts().count_of(author), alone.commit_count());
        merged.merge(alone);
    }
    assert_eq!(merged.commit_count(), whole.commit_count());
    assert_eq!(merged.lines_added(), whole.lines_added());
    assert_eq!(merged.lines_deleted(), whole.lines_deleted());
    for name in ["alice", "bob", "carol", "Unknown"] {
        assert_eq!(
            merged.author_counts().count_of(name),
            whole.author_counts().count_of(name)
        );
    }
    let mut left = merged.activity_log().clone();
    let mut right = whole.activity_log().clone();
    left.sort();
    right.sort();
    assert_eq!(left, right);
}

#[test]
fn an_author_named_all_is_counted_under_every_single_filter_only_as_himself() {
    let records = vec![
        record(Some("All"), 0, vec![change(1, 0)]),
        record(Some("bob"), 0, vec![change(2, 0)]),
    ];
    // The filter "All" accepts everyone, the author of that name too.
    let everyone = process_records(&records, "All").unwrap();
    assert_eq!(everyone.commit_count(), 2);
    let bob = process_records(&records, "bob").unwrap();
    assert_eq!(bob.commit_count(), 1);
}

#[test]
fn totals_beyond_the_machine_word_fail_the_chunk() {
    let records = vec![
        record(Some("alice"), 0, vec![change(usize::MAX, 0)]),
        record(Some("bob"), 0, vec![change(1, 0)]),
    ];
    let outcome = process_records(&records, "All");
    assert!(matches!(outcome, Err(ChunkTaskError::TotalsOverflow)));
    // The commit that does not fit is skipped by a filter: the chunk succeeds.
    let outcome = process_records(&records, "alice").unwrap();
    assert_eq!(outcome.lines_added(), usize::MAX);
}

#[test]
fn a_record_that_does_not_fit_leaves_the_counts_unchanged() {
    let mut stats = PartialStats::new();
    assert!(count_record(
        &mut stats,
        &record(Some("alice"), 0, vec![change(usize::MAX, 1)]),
        "All"
    ));
    assert!(!count_record(
        &mut stats,
        &record(Some("bob"), 0, vec![change(1, 0)]),
        "All"
    ));
    assert_eq!(stats.commit_count(), 1);
    assert_eq!(stats.lines_added(), usize::MAX);
    assert!(count_record(
        &mut stats,
        &record(Some("bob"), 0, vec![change(1, 0)]),
        "alice"
    ));
    assert_eq!(stats.commit_count(), 1);
}

#[test]
fn the_error_of_a_chunk_says_what_went_wrong() {
    assert_eq!(
        ChunkTaskError::TotalsOverflow.message(),
        "totals exceed the machine word"
    );
    assert_eq!(
        ChunkTaskError::Handle("object not found".to_string()).message(),
        "object not found"
    );
}

#[test]
fn the_error_of_an_analysis_hands_its_message_on() {
    let errors = [
        AnalysisError::Open("no repository".to_string()),
        AnalysisError::Enumeration("no head".to_string()),
        AnalysisError::Branches("no branches".to_string()),
        AnalysisError::Scheduling("closed".to_string()),
    ];
    let messages: Vec<String> = errors.iter().map(|error| error.message()).collect();
    assert_eq!(messages, vec!["no repository", "no head", "no branches", "closed"]);
}
