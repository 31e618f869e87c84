use gitstats::cache::CacheManager;
use gitstats::types::{AnalysisResult, CacheKey, Ratio};
use std::collections::HashMap;

fn key(branch: &str, contributor: &str) -> CacheKey {
    CacheKey {
        branch: branch.to_string(),
        contributor: contributor.to_string(),
    }
}

fn result(commits: usize) -> AnalysisResult {
    let mut result = AnalysisResult::default();
    result.commit_count = commits;
    result.total_lines_added = 10 * commits;
    result.total_lines_deleted = commits;
    result.top_contributors = vec![("alice".to_string(), commits)];
    result.commit_activity = vec![("2023-01-01".to_string(), 10 * commits, commits)];
    result.average_commit_size = Ratio { numerator: 11 * commits as u128, denominator: commits as u128 };
    result.commit_frequency.add("2023-01", commits);
    result.top_contributors_by_lines = vec![("alice".to_string(), commits)];
    result.available_branches = vec!["main".to_string(), "develop".to_string()];
    result.elapsed_time = 1234;
    result.processing_stats = "done".to_string();
    result
}

fn assert_same(found: &AnalysisResult, expected: &AnalysisResult) {
    assert_eq!(found.commit_count, expected.commit_count);
    assert_eq!(found.total_lines_added, expected.total_lines_added);
    assert_eq!(found.total_lines_deleted, expected.total_lines_deleted);
    assert_eq!(found.top_contributors, expected.top_contributors);
    assert_eq!(found.commit_activity, expected.commit_activity);
    assert_eq!(found.average_commit_size, expected.average_commit_size);
    assert_eq!(
        found.commit_frequency.entries(),
        expected.commit_frequency.entries()
    );
    assert_eq!(
        found.top_contributors_by_lines,
        expected.top_contributors_by_lines
    );
    assert_eq!(found.available_branches, expected.available_branches);
    assert_eq!(found.elapsed_time, expected.elapsed_time);
    assert_eq!(found.processing_stats, expected.processing_stats);
}

#[test]
fn test_cache_key() {
    let key1 = CacheKey {
        branch: "main".to_string(),
        contributor: "All".to_string(),
    };
    let key2 = CacheKey {
        branch: "main".to_string(),
        contributor: "All".to_string(),
    };
    let key3 = CacheKey {
        branch: "develop".to_string(),
        contributor: "All".to_string(),
    };

    assert_eq!(key1, key2);
    assert_ne!(key1, key3);

    let mut cache = HashMap::new();
    cache.insert(key1.clone(), AnalysisResult::default());
    assert!(cache.contains_key(&key2));
    assert!(!cache.contains_key(&key3));
}

#[test]
fn keys_match_by_branch_and_contributor() {
    assert!(key("main", "All").matches(&key("main", "All")));
    assert!(!key("main", "All").matches(&key("develop", "All")));
    assert!(!key("main", "All").matches(&key("main", "alice")));
    assert!(!key("main", "All").matches(&key("All", "main")));
    assert!(CacheKey::new("main", "All").matches(&key("main", "All")));
    assert!(key("main", "All").duplicate().matches(&key("main", "All")));
}

#[test]
fn an_empty_cache_finds_nothing() {
    let cache = CacheManager::new();
    assert_eq!(cache.len(), 0);
    assert!(cache.get(&key("main", "All")).is_none());
    assert!(cache.get_cached_result("main", "All").is_none());
    assert!(CacheManager::default().get(&key("main", "All")).is_none());
}

#[test]
fn what_is_stored_is_found() {
    let mut cache = CacheManager::new();
    cache.store(key("main", "All"), result(3));
    let found = cache.get(&key("main", "All")).unwrap();
    assert_same(found, &result(3));
    assert_eq!(cache.len(), 1);
}

#[test]
fn an_absent_key_is_not_found() {
    let mut cache = CacheManager::new();
    cache.store(key("main", "All"), result(3));
    assert!(cache.get(&key("develop", "All")).is_none());
    assert!(cache.get(&key("main", "alice")).is_none());
    assert!(cache.get(&key("", "")).is_none());
    assert!(cache.get(&key("mainAll", "")).is_none());
}

#[test]
fn storing_again_replaces_the_result() {
    let mut cache = CacheManager::new();
    cache.store(key("main", "All"), result(3));
    cache.store(key("main", "alice"), result(2));
    cache.store(key("main", "All"), result(7));
    assert_eq!(cache.len(), 2);
    assert_same(cache.get(&key("main", "All")).unwrap(), &result(7));
    assert_same(cache.get(&key("main", "alice")).unwrap(), &result(2));
}

#[test]
fn a_hit_hands_out_a_deep_copy() {
    let mut cache = CacheManager::new();
    cache.store(key("main", "All"), result(3));
    let mut copy = cache.get_cached_result("main", "All").unwrap();
    assert_same(&copy, &result(3));
    copy.commit_count = 99;
    copy.commit_activity.clear();
    copy.commit_frequency.record("2024-05");
    copy.available_branches.push("other".to_string());
    assert_same(cache.get(&key("main", "All")).unwrap(), &result(3));
}

#[test]
fn clearing_drops_everything() {
    let mut cache = CacheManager::new();
    cache.store(key("main", "All"), result(3));
    cache.store(key("develop", "All"), result(4));
    cache.clear();
    assert_eq!(cache.len(), 0);
    assert!(cache.get(&key("main", "All")).is_none());
    assert!(cache.get(&key("develop", "All")).is_none());
    cache.store(key("develop", "All"), result(5));
    assert_same(cache.get(&key("develop", "All")).unwrap(), &result(5));
}

#[test]
fn a_clone_of_a_result_equals_it() {
    let original = result(6);
    let copy = original.clone();
    assert_same(&copy, &original);
}

#[test]
fn the_default_result_is_empty() {
    let result = AnalysisResult::default();
    assert_eq!(result.commit_count, 0);
    assert_eq!(result.total_lines_added, 0);
    assert_eq!(result.total_lines_deleted, 0);
    assert!(result.top_contributors.is_empty());
    assert!(result.commit_activity.is_empty());
    assert_eq!(result.average_commit_size, Ratio { numerator: 0, denominator: 1 });
    assert_eq!(result.commit_frequency.total(), 0);
    assert!(result.top_contributors_by_lines.is_empty());
    assert!(result.available_branches.is_empty());
    assert_eq!(result.elapsed_time, 0);
    assert_eq!(result.processing_stats, "");
}
