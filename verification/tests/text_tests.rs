use gitstats::text::{leading_chars, text_equal, text_precedes};

#[test]
fn equal_texts_are_equal() {
    assert!(text_equal("main", "main"));
    assert!(text_equal("", ""));
    assert!(!text_equal("main", "master"));
    assert!(!text_equal("main", "mai"));
    assert!(!text_equal("", "a"));
}

#[test]
fn texts_are_ordered_byte_by_byte() {
    assert!(text_precedes("develop", "feature"));
    assert!(text_precedes("feature", "main"));
    assert!(text_precedes("main", "master"));
    assert!(!text_precedes("master", "main"));
    assert!(!text_precedes("main", "main"));
}

#[test]
fn a_prefix_comes_first() {
    assert!(text_precedes("", "a"));
    assert!(text_precedes("mai", "main"));
    assert!(!text_precedes("main", "mai"));
    assert!(!text_precedes("", ""));
}

#[test]
fn upper_case_comes_before_lower_case() {
    assert!(text_precedes("Zed", "alice"));
    assert!(!text_precedes("alice", "Zed"));
}

#[test]
fn the_order_agrees_with_the_order_of_str() {
    let names = ["", "a", "ab", "b", "B", "é", "z", "日本", "main", "master", "~"];
    for a in names.iter() {
        for b in names.iter() {
            assert_eq!(text_precedes(a, b), a < b);
            assert_eq!(text_equal(a, b), a == b);
        }
    }
}

#[test]
fn leading_chars_takes_the_front() {
    assert_eq!(leading_chars("2023-01-15", 7), "2023-01");
    assert_eq!(leading_chars("Unknown", 7), "Unknown");
    assert_eq!(leading_chars("2023", 7), "2023");
    assert_eq!(leading_chars("", 7), "");
    assert_eq!(leading_chars("abc", 0), "");
}

#[test]
fn leading_chars_counts_characters_not_bytes() {
    assert_eq!(leading_chars("ééééééééé", 7), "ééééééé");
    assert_eq!(leading_chars("日本語", 2), "日本");
}
