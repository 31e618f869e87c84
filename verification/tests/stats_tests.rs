use gitstats::stats::{merge_partials, merge_surviving, PartialStats};

fn counted(commits: &[(&str, &str, usize, usize)]) -> PartialStats {
    let mut stats = PartialStats::new();
    for (author, date, added, deleted) in commits {
        assert!(stats.can_count(*added, *deleted));
        stats.count_commit(author, date.to_string(), *added, *deleted);
    }
    stats
}

#[test]
fn new_stats_count_nothing() {
    let stats = PartialStats::new();
    assert_eq!(stats.commit_count(), 0);
    assert_eq!(stats.lines_added(), 0);
    assert_eq!(stats.lines_deleted(), 0);
    assert!(stats.activity_log().is_empty());
    assert_eq!(stats.author_counts().total(), 0);
}

#[test]
fn counting_a_commit_adds_to_everything() {
    let stats = counted(&[("alice", "2023-01-01", 10, 5), ("bob", "2023-01-02", 3, 4)]);
    assert_eq!(stats.commit_count(), 2);
    assert_eq!(stats.lines_added(), 13);
    assert_eq!(stats.lines_deleted(), 9);
    assert_eq!(
        stats.activity_log(),
        &vec![
            ("2023-01-01".to_string(), 10, 5),
            ("2023-01-02".to_string(), 3, 4)
        ]
    );
    assert_eq!(stats.author_counts().count_of("alice"), 1);
    assert_eq!(stats.author_counts().count_of("bob"), 1);
}

#[test]
fn merging_adds_counts_and_concatenates_logs() {
    let mut left = counted(&[("alice", "2023-01-01", 10, 5)]);
    let right = counted(&[("alice", "2023-01-03", 1, 1), ("bob", "2023-01-02", 3, 4)]);
    assert!(left.can_merge(&right));
    left.merge(right);
    assert_eq!(left.commit_count(), 3);
    assert_eq!(left.lines_added(), 14);
    assert_eq!(left.lines_deleted(), 10);
    assert_eq!(
        left.activity_log(),
        &vec![
            ("2023-01-01".to_string(), 10, 5),
            ("2023-01-03".to_string(), 1, 1),
            ("2023-01-02".to_string(), 3, 4)
        ]
    );
    assert_eq!(left.author_counts().count_of("alice"), 2);
    assert_eq!(left.author_counts().count_of("bob"), 1);
}

#[test]
fn merging_with_nothing_changes_nothing() {
    let mut stats = counted(&[("alice", "2023-01-01", 10, 5)]);
    stats.merge(PartialStats::new());
    assert_eq!(stats.commit_count(), 1);
    assert_eq!(stats.lines_added(), 10);
    let mut empty = PartialStats::new();
    empty.merge(counted(&[("alice", "2023-01-01", 10, 5)]));
    assert_eq!(empty.commit_count(), 1);
    assert_eq!(empty.lines_deleted(), 5);
    assert_eq!(empty.activity_log(), stats.activity_log());
}

fn parts() -> Vec<Vec<(&'static str, &'static str, usize, usize)>> {
    vec![
        vec![("alice", "2023-01-01", 10, 5), ("bob", "2023-01-02", 3, 4)],
        vec![("carol", "2023-02-01", 7, 0)],
        vec![],
        vec![("alice", "2023-03-01", 1, 1), ("alice", "2023-03-02", 2, 2)],
    ]
}

#[test]
fn merging_in_any_order_gives_the_same_totals() {
    let orders: [[usize; 4]; 5] = [
        [0, 1, 2, 3],
        [3, 2, 1, 0],
        [1, 3, 0, 2],
        [2, 0, 3, 1],
        [3, 0, 1, 2],
    ];
    for order in orders.iter() {
        let all = parts();
        let shuffled: Vec<PartialStats> = order.iter().map(|i| counted(&all[*i])).collect();
        let merged = merge_partials(shuffled).unwrap();
        assert_eq!(merged.commit_count(), 5);
        assert_eq!(merged.lines_added(), 23);
        assert_eq!(merged.lines_deleted(), 12);
        assert_eq!(merged.author_counts().count_of("alice"), 3);
        assert_eq!(merged.author_counts().count_of("bob"), 1);
        assert_eq!(merged.author_counts().count_of("carol"), 1);
        let mut log = merged.activity_log().clone();
        log.sort();
        assert_eq!(
            log,
            vec![
                ("2023-01-01".to_string(), 10, 5),
                ("2023-01-02".to_string(), 3, 4),
                ("2023-02-01".to_string(), 7, 0),
                ("2023-03-01".to_string(), 1, 1),
                ("2023-03-02".to_string(), 2, 2),
            ]
        );
    }
}

#[test]
fn merging_keeps_the_order_of_the_parts() {
    let all = parts();
    let merged = merge_partials(all.iter().map(|p| counted(p)).collect()).unwrap();
    let dates: Vec<&str> = merged.activity_log().iter().map(|e| e.0.as_str()).collect();
    assert_eq!(
        dates,
        vec!["2023-01-01", "2023-01-02", "2023-02-01", "2023-03-01", "2023-03-02"]
    );
}

#[test]
fn merging_no_parts_gives_nothing() {
    let merged = merge_partials(Vec::new()).unwrap();
    assert_eq!(merged.commit_count(), 0);
    assert!(merged.activity_log().is_empty());
}

#[test]
fn totals_beyond_the_machine_word_are_refused() {
    let big = counted(&[("alice", "2023-01-01", usize::MAX, 0)]);
    let small = counted(&[("bob", "2023-01-02", 1, 0)]);
    assert!(!big.can_merge(&small));
    assert!(!big.can_count(1, 0));
    assert!(big.can_count(0, usize::MAX));
    assert!(merge_partials(vec![big, small]).is_none());
    let big = counted(&[("alice", "2023-01-01", usize::MAX, 0)]);
    let none = counted(&[("bob", "2023-01-02", 0, 7)]);
    let merged = merge_partials(vec![big, none]).unwrap();
    assert_eq!(merged.lines_added(), usize::MAX);
    assert_eq!(merged.lines_deleted(), 7);
}

#[test]
fn a_failed_chunk_is_left_out_of_the_merge() {
    let outcomes = vec![
        Some(counted(&[("alice", "2023-01-01", 10, 5)])),
        None,
        Some(counted(&[("bob", "2023-01-02", 3, 4)])),
        None,
    ];
    let (merged, dropped) = merge_surviving(outcomes);
    assert_eq!(dropped, 2);
    assert_eq!(merged.commit_count(), 2);
    assert_eq!(merged.lines_added(), 13);
    assert_eq!(merged.lines_deleted(), 9);
    let (merged, dropped) = merge_surviving(Vec::new());
    assert_eq!(dropped, 0);
    assert_eq!(merged.commit_count(), 0);
    let (merged, dropped) = merge_surviving(vec![None]);
    assert_eq!(dropped, 1);
    assert_eq!(merged.commit_count(), 0);
}

#[test]
fn a_chunk_that_no_longer_fits_is_left_out_of_the_merge() {
    let outcomes = vec![
        Some(counted(&[("alice", "2023-01-01", usize::MAX - 1, 0)])),
        Some(counted(&[("bob", "2023-01-02", 2, 0)])),
        Some(counted(&[("carol", "2023-01-03", 1, 7)])),
    ];
    let (merged, dropped) = merge_surviving(outcomes);
    assert_eq!(dropped, 1);
    assert_eq!(merged.commit_count(), 2);
    assert_eq!(merged.lines_added(), usize::MAX);
    assert_eq!(merged.lines_deleted(), 7);
    assert_eq!(merged.author_counts().count_of("bob"), 0);
    assert_eq!(merged.author_counts().count_of("carol"), 1);
}
