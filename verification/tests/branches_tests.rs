use gitstats::branches::{
    order_branches, pin_default_branch, position_of, readable_names, sort_names,
};

fn names(list: &[&str]) -> Vec<String> {
    list.iter().map(|name| name.to_string()).collect()
}

#[test]
fn main_comes_first() {
    assert_eq!(
        order_branches(names(&["feature", "main", "develop"])),
        names(&["main", "feature", "develop"])
    );
}

#[test]
fn master_comes_first_without_main() {
    assert_eq!(
        order_branches(names(&["feature", "master"])),
        names(&["master", "feature"])
    );
}

#[test]
fn main_wins_over_master() {
    assert_eq!(
        order_branches(names(&["master", "zeta", "main", "alpha"])),
        names(&["main", "alpha", "master", "zeta"])
    );
}

#[test]
fn without_a_default_branch_the_names_are_sorted() {
    assert_eq!(
        order_branches(names(&["feature", "develop", "bugfix"])),
        names(&["bugfix", "develop", "feature"])
    );
}

#[test]
fn no_branches_stay_no_branches() {
    assert!(order_branches(Vec::new()).is_empty());
}

#[test]
fn a_single_branch_stays() {
    assert_eq!(order_branches(names(&["main"])), names(&["main"]));
    assert_eq!(order_branches(names(&["topic"])), names(&["topic"]));
}

#[test]
fn the_default_branch_changes_places_with_the_first() {
    assert_eq!(
        pin_default_branch(names(&["a", "b", "main", "z"])),
        names(&["main", "b", "a", "z"])
    );
    assert_eq!(
        pin_default_branch(names(&["main", "b"])),
        names(&["main", "b"])
    );
    assert_eq!(
        pin_default_branch(names(&["a", "master"])),
        names(&["master", "a"])
    );
    assert_eq!(pin_default_branch(names(&["a", "b"])), names(&["a", "b"]));
}

#[test]
fn names_are_sorted_as_texts() {
    assert_eq!(
        sort_names(names(&["b", "a", "C", "ab", "", "a"])),
        names(&["", "C", "a", "a", "ab", "b"])
    );
    let mut expected = names(&["release/2", "release/10", "Main", "main", "hotfix", "é"]);
    let sorted = sort_names(expected.clone());
    expected.sort();
    assert_eq!(sorted, expected);
}

#[test]
fn the_position_is_that_of_the_first_occurrence() {
    let list = names(&["a", "main", "b", "main"]);
    assert_eq!(position_of(&list, "main"), Some(1));
    assert_eq!(position_of(&list, "a"), Some(0));
    assert_eq!(position_of(&list, "master"), None);
    assert_eq!(position_of(&Vec::new(), "main"), None);
}

#[test]
fn names_that_cannot_be_read_are_left_out() {
    let listed = vec![Some("b".to_string()), None, Some("a".to_string()), None];
    assert_eq!(readable_names(listed), names(&["b", "a"]));
    assert!(readable_names(vec![None]).is_empty());
}
