use gitstats::ranking::{ranks_first, top_contributors};
use gitstats::tally::Tally;

fn tally(counts: &[(&str, usize)]) -> Tally {
    let mut tally = Tally::new();
    for (name, count) in counts {
        tally.add(name, *count);
    }
    tally
}

fn pairs(counts: &[(&str, usize)]) -> Vec<(String, usize)> {
    counts.iter().map(|(name, count)| (name.to_string(), *count)).collect()
}

#[test]
fn the_larger_count_ranks_first() {
    assert!(ranks_first("bob", 3, "alice", 2));
    assert!(!ranks_first("alice", 2, "bob", 3));
}

#[test]
fn among_equal_counts_the_name_decides() {
    assert!(ranks_first("alice", 2, "bob", 2));
    assert!(!ranks_first("bob", 2, "alice", 2));
    assert!(!ranks_first("alice", 2, "alice", 2));
}

#[test]
fn the_top_of_nothing_is_empty() {
    assert!(top_contributors(&Tally::new(), 5).is_empty());
}

#[test]
fn fewer_contributors_than_the_limit_are_all_listed() {
    let top = top_contributors(&tally(&[("bob", 1), ("alice", 4)]), 5);
    assert_eq!(top, pairs(&[("alice", 4), ("bob", 1)]));
}

#[test]
fn the_top_holds_no_more_than_the_limit() {
    let counts = [
        ("a", 1),
        ("b", 9),
        ("c", 3),
        ("d", 7),
        ("e", 5),
        ("f", 2),
        ("g", 8),
    ];
    let top = top_contributors(&tally(&counts), 5);
    assert_eq!(top, pairs(&[("b", 9), ("g", 8), ("d", 7), ("e", 5), ("c", 3)]));
    let top = top_contributors(&tally(&counts), 1);
    assert_eq!(top, pairs(&[("b", 9)]));
    assert!(top_contributors(&tally(&counts), 0).is_empty());
}

#[test]
fn the_top_is_in_descending_order_of_the_counts() {
    let counts = [("a", 2), ("b", 2), ("c", 5), ("d", 1), ("e", 5), ("f", 2), ("g", 3)];
    let top = top_contributors(&tally(&counts), 5);
    assert!(top.len() <= 5);
    for i in 1..top.len() {
        assert!(top[i - 1].1 >= top[i].1);
    }
    assert_eq!(top, pairs(&[("c", 5), ("e", 5), ("g", 3), ("a", 2), ("b", 2)]));
}

#[test]
fn the_top_does_not_depend_on_the_order_of_recording() {
    let forwards = tally(&[("a", 2), ("b", 2), ("c", 2), ("d", 2), ("e", 2), ("f", 2)]);
    let backwards = tally(&[("f", 2), ("e", 2), ("d", 2), ("c", 2), ("b", 2), ("a", 2)]);
    let expected = pairs(&[("a", 2), ("b", 2), ("c", 2), ("d", 2), ("e", 2)]);
    assert_eq!(top_contributors(&forwards, 5), expected);
    assert_eq!(top_contributors(&backwards, 5), expected);
}
