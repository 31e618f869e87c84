use git2::{Oid, Repository, RepositoryInitOptions, Signature, Time};
use gitstats::analysis::{
    analyze_repo_with_filter, enumerate_commits, get_available_branches, list_branches, open,
    walk_start, WalkStart,
};
use gitstats::commits::LineChange;
use gitstats::errors::{AnalysisError, ChunkTaskError};
use gitstats::git::DiffPolicy;
use gitstats::types::Ratio;
use gitstats::git::note_hunk;
use gitstats::session::App;
use gitstats::worker::{
    comparison_result, line_count_policy, process_chunk_at, process_commit_chunk, read_commit,
};
use tempfile::TempDir;

fn new_repo() -> (TempDir, Repository) {
    let dir = TempDir::new().unwrap();
    let mut options = RepositoryInitOptions::new();
    options.initial_head("main");
    let repo = Repository::init_opts(dir.path(), &options).unwrap();
    (dir, repo)
}

fn path_of(dir: &TempDir) -> String {
    dir.path().to_str().unwrap().to_string()
}

fn lines(count: usize) -> String {
    (1..=count).map(|i| format!("line {}\n", i)).collect()
}

/// Writes a commit with the given files as its whole tree.
fn commit(
    repo: &Repository,
    update: Option<&str>,
    parents: &[Oid],
    files: &[(&str, &str)],
    author: &str,
    seconds: i64,
) -> Oid {
    let mut builder = repo.treebuilder(None).unwrap();
    for (name, content) in files {
        let blob = repo.blob(content.as_bytes()).unwrap();
        builder.insert(name, blob, 0o100644).unwrap();
    }
    let tree = repo.find_tree(builder.write().unwrap()).unwrap();
    let signature = Signature::new(author, "someone@example.com", &Time::new(seconds, 0)).unwrap();
    let parents: Vec<git2::Commit> = parents
        .iter()
        .map(|id| repo.find_commit(*id).unwrap())
        .collect();
    let parents: Vec<&git2::Commit> = parents.iter().collect();
    repo.commit(update, &signature, &signature, "a commit", &tree, &parents)
        .unwrap()
}

const DAY: i64 = 86_400;

#[test]
fn test_analyze_empty_repo() {
    let (dir, repo) = new_repo();
    commit(&repo, Some("HEAD"), &[], &[], "Test User", 0);

    let result = analyze_repo_with_filter(&path_of(&dir), "main", "All");

    assert!(result.is_ok());
    let analysis = result.unwrap().result;
    assert_eq!(analysis.commit_count, 1);
    assert_eq!(analysis.total_lines_added, 0);
    assert_eq!(analysis.total_lines_deleted, 0);
}

#[test]
fn test_analyze_with_commits() {
    let (dir, repo) = new_repo();
    let root = commit(&repo, Some("HEAD"), &[], &[], "Test User", 0);
    commit(
        &repo,
        Some("HEAD"),
        &[root],
        &[("test.txt", "Hello, World!\n")],
        "Test User",
        DAY,
    );

    let result = analyze_repo_with_filter(&path_of(&dir), "main", "All");

    assert!(result.is_ok());
    let analysis = result.unwrap().result;
    assert_eq!(analysis.commit_count, 2);
    assert!(analysis.total_lines_added > 0);
    assert_eq!(analysis.total_lines_added, 1);
}

#[test]
fn test_error_handling() {
    // A path that leads to no repository.
    let result = analyze_repo_with_filter("/nonexistent/path", "main", "All");
    assert!(result.is_err());
    assert!(matches!(result, Err(AnalysisError::Open(_))));

    // A branch that does not exist: the analysis starts from the head.
    let (dir, repo) = new_repo();
    let root = commit(&repo, Some("HEAD"), &[], &[], "Test User", 0);
    commit(&repo, Some("HEAD"), &[root], &[("a.txt", "a\n")], "Test User", DAY);
    let result = analyze_repo_with_filter(&path_of(&dir), "nonexistent-branch", "All");
    assert!(result.is_ok());
    assert_eq!(result.unwrap().result.commit_count, 2);
}

#[test]
fn a_root_commit_and_a_child_that_adds_ten_lines() {
    let (dir, repo) = new_repo();
    let root = commit(&repo, Some("HEAD"), &[], &[], "Test User", 0);
    commit(
        &repo,
        Some("HEAD"),
        &[root],
        &[("new.txt", &lines(10))],
        "Test User",
        DAY,
    );

    let report = analyze_repo_with_filter(&path_of(&dir), "main", "All").unwrap();
    let result = report.result;
    assert_eq!(result.commit_count, 2);
    assert_eq!(result.total_lines_added, 10);
    assert_eq!(result.total_lines_deleted, 0);
    assert_eq!(
        result.average_commit_size,
        Ratio { numerator: 10, denominator: 2 }
    );
    assert_eq!(result.average_commit_size.whole(), 5);
    assert_eq!(result.average_commit_size.remainder(), 0);
    assert_eq!(result.top_contributors, vec![("Test User".to_string(), 2)]);
    assert_eq!(result.top_contributors_by_lines, result.top_contributors);
    // The walk goes from the newest commit back.
    assert_eq!(
        result.commit_activity,
        vec![
            ("1970-01-02".to_string(), 10, 0),
            ("1970-01-01".to_string(), 0, 0),
        ]
    );
    assert_eq!(result.commit_frequency.count_of("1970-01"), 2);
    assert_eq!(result.available_branches, vec!["main"]);
    assert!(result.processing_stats.starts_with("Processed 2 commits in "));
    assert!(result.processing_stats.contains("\nChunk size: 100\nParallel tasks: "));
    assert_eq!(report.dropped_chunks, 0);
    assert_eq!(report.progress.len(), 2);
    assert_eq!(report.progress[0].processed_commits, 0);
    assert_eq!(report.progress[0].total_commits, 2);
    assert_eq!(report.progress[1].processed_commits, 2);
}

#[test]
fn a_filter_that_names_nobody_counts_nothing() {
    let (dir, repo) = new_repo();
    let root = commit(&repo, Some("HEAD"), &[], &[], "Test User", 0);
    commit(
        &repo,
        Some("HEAD"),
        &[root],
        &[("new.txt", &lines(10))],
        "Test User",
        DAY,
    );

    let outcome = analyze_repo_with_filter(&path_of(&dir), "main", "Nobody");
    assert!(outcome.is_ok());
    let result = outcome.unwrap().result;
    assert_eq!(result.commit_count, 0);
    assert!(result.top_contributors.is_empty());
    assert_eq!(
        result.average_commit_size,
        Ratio { numerator: 0, denominator: 1 }
    );
    assert_eq!(result.total_lines_added, 0);
    assert_eq!(result.total_lines_deleted, 0);
    assert!(result.commit_activity.is_empty());
}

#[test]
fn a_filter_counts_the_commits_of_one_author() {
    let (dir, repo) = new_repo();
    let a = commit(&repo, Some("HEAD"), &[], &[("f", &lines(3))], "alice", 0);
    let b = commit(&repo, Some("HEAD"), &[a], &[("f", &lines(5))], "bob", DAY);
    commit(&repo, Some("HEAD"), &[b], &[("f", &lines(4))], "alice", 40 * DAY);

    let everyone = analyze_repo_with_filter(&path_of(&dir), "main", "All")
        .unwrap()
        .result;
    assert_eq!(everyone.commit_count, 3);
    assert_eq!(everyone.total_lines_added, 5);
    assert_eq!(everyone.total_lines_deleted, 1);
    assert_eq!(
        everyone.top_contributors,
        vec![("alice".to_string(), 2), ("bob".to_string(), 1)]
    );
    assert_eq!(everyone.commit_frequency.count_of("1970-01"), 2);
    assert_eq!(everyone.commit_frequency.count_of("1970-02"), 1);

    let alice = analyze_repo_with_filter(&path_of(&dir), "main", "alice")
        .unwrap()
        .result;
    assert_eq!(alice.commit_count, 2);
    assert_eq!(alice.total_lines_added, 3);
    assert_eq!(alice.total_lines_deleted, 1);
    assert_eq!(alice.top_contributors, vec![("alice".to_string(), 2)]);

    let bob = analyze_repo_with_filter(&path_of(&dir), "main", "bob")
        .unwrap()
        .result;
    assert_eq!(bob.commit_count, 1);
    assert_eq!(bob.total_lines_added, 2);
    assert_eq!(bob.total_lines_deleted, 0);

    assert_eq!(everyone.commit_count, alice.commit_count + bob.commit_count);
    assert_eq!(
        everyone.total_lines_added,
        alice.total_lines_added + bob.total_lines_added
    );
    assert_eq!(
        everyone.total_lines_deleted,
        alice.total_lines_deleted + bob.total_lines_deleted
    );
}

#[test]
fn a_merge_commit_has_the_larger_of_its_diffs() {
    let (dir, repo) = new_repo();
    let root = commit(&repo, Some("HEAD"), &[], &[("f", &lines(10))], "alice", 0);
    // One side adds twenty lines to a new file, the other drops four lines.
    let left = commit(
        &repo,
        None,
        &[root],
        &[("f", &lines(10)), ("g", &lines(20))],
        "alice",
        DAY,
    );
    let right = commit(&repo, None, &[root], &[("f", &lines(6))], "bob", 2 * DAY);
    let merged = commit(
        &repo,
        None,
        &[left, right],
        &[("f", &lines(6)), ("g", &lines(20))],
        "carol",
        3 * DAY,
    );

    // Against the left parent four lines are gone; against the right one twenty lines are new.
    assert_eq!(
        read_commit(&repo, merged, "All").unwrap().diffs,
        vec![
            Some(LineChange { added: 0, deleted: 4 }),
            Some(LineChange { added: 20, deleted: 0 }),
        ]
    );
    // What git2 itself counts between the merge and each parent.
    let merge = repo.find_commit(merged).unwrap();
    let per_parent: Vec<(usize, usize)> = merge
        .parents()
        .map(|parent| {
            let diff = repo
                .diff_tree_to_tree(
                    Some(&parent.tree().unwrap()),
                    Some(&merge.tree().unwrap()),
                    None,
                )
                .unwrap();
            let stats = diff.stats().unwrap();
            (stats.insertions(), stats.deletions())
        })
        .collect();
    assert_eq!(per_parent, vec![(0, 4), (20, 0)]);
    let stats = process_commit_chunk(&repo, &[merged], "All").unwrap();
    assert_eq!(stats.commit_count(), 1);
    assert_eq!(stats.lines_added(), 20);
    assert_eq!(stats.lines_deleted(), 4);
    assert_eq!(
        stats.activity_log(),
        &vec![("1970-01-04".to_string(), 20, 4)]
    );

    let all = process_chunk_at(&path_of(&dir), &[merged, right, left, root], "All").unwrap();
    assert_eq!(all.commit_count(), 4);
    assert_eq!(all.lines_added(), 20 + 0 + 20 + 10);
    assert_eq!(all.lines_deleted(), 4 + 4 + 0 + 0);
    assert_eq!(all.author_counts().count_of("alice"), 2);
    assert_eq!(all.author_counts().count_of("bob"), 1);
    assert_eq!(all.author_counts().count_of("carol"), 1);
}

#[test]
fn a_root_commit_is_compared_with_the_empty_tree() {
    let (_dir, repo) = new_repo();
    let root = commit(&repo, Some("HEAD"), &[], &[("f", &lines(7))], "alice", 0);
    assert_eq!(
        read_commit(&repo, root, "All").unwrap().diffs,
        vec![Some(LineChange { added: 7, deleted: 0 })]
    );
    let stats = process_commit_chunk(&repo, &[root], "All").unwrap();
    assert_eq!(stats.lines_added(), 7);
    assert_eq!(stats.lines_deleted(), 0);
}

#[test]
fn a_commit_with_one_parent_is_compared_with_that_parent() {
    let (_dir, repo) = new_repo();
    let root = commit(&repo, Some("HEAD"), &[], &[("f", &lines(7))], "alice", 0);
    let child = commit(
        &repo,
        Some("HEAD"),
        &[root],
        &[("f", &lines(5)), ("g", "x\ny\n")],
        "alice",
        DAY,
    );
    assert_eq!(
        read_commit(&repo, child, "All").unwrap().diffs,
        vec![Some(LineChange { added: 2, deleted: 2 })]
    );
    // Nothing changed: one comparison without lines.
    let same = commit(
        &repo,
        Some("HEAD"),
        &[child],
        &[("f", &lines(5)), ("g", "x\ny\n")],
        "alice",
        2 * DAY,
    );
    assert_eq!(
        read_commit(&repo, same, "All").unwrap().diffs,
        vec![Some(LineChange { added: 0, deleted: 0 })]
    );
}

#[test]
fn hunks_are_noted_in_the_order_of_the_walk() {
    let mut sizes = vec![(1, 2)];
    assert!(note_hunk(&mut sizes, 3, 4));
    assert!(note_hunk(&mut sizes, 0, 9));
    assert_eq!(sizes, vec![(1, 2), (3, 4), (0, 9)]);
}

#[test]
fn changes_of_whitespace_alone_count_no_lines() {
    let (_dir, repo) = new_repo();
    let a = commit(&repo, Some("HEAD"), &[], &[("f", "one two\nthree\n")], "alice", 0);
    let b = commit(
        &repo,
        Some("HEAD"),
        &[a],
        &[("f", "one    two\n  three\n")],
        "alice",
        DAY,
    );
    let stats = process_commit_chunk(&repo, &[b], "All").unwrap();
    assert_eq!(stats.commit_count(), 1);
    assert_eq!(stats.lines_added(), 0);
    assert_eq!(stats.lines_deleted(), 0);
}

#[test]
fn the_policy_passes_over_whitespace_and_keeps_no_context() {
    assert_eq!(
        line_count_policy(),
        DiffPolicy {
            include_untracked: false,
            ignore_whitespace: true,
            context_lines: 0,
            ignore_filemode: true,
            ignore_submodules: true,
            minimal: true,
            patience: true,
            indent_heuristic: true,
        }
    );
}

#[test]
fn a_comparison_that_failed_has_no_result() {
    assert_eq!(comparison_result(None), None);
    assert_eq!(
        comparison_result(Some(vec![(2, 1), (3, 0)])),
        Some(LineChange { added: 5, deleted: 1 })
    );
}

#[test]
fn a_commit_that_the_filter_skips_is_not_compared() {
    let (_dir, repo) = new_repo();
    let root = commit(&repo, Some("HEAD"), &[], &[("f", &lines(7))], "alice", 5 * DAY);
    let skipped = read_commit(&repo, root, "bob").unwrap();
    assert_eq!(skipped.author, Some("alice".to_string()));
    assert_eq!(skipped.seconds, 5 * DAY);
    assert!(skipped.diffs.is_empty());
    let read = read_commit(&repo, root, "alice").unwrap();
    assert_eq!(read.diffs, vec![Some(LineChange { added: 7, deleted: 0 })]);
    let read = read_commit(&repo, root, "All").unwrap();
    assert_eq!(read.diffs, vec![Some(LineChange { added: 7, deleted: 0 })]);
}

#[test]
fn a_commit_that_cannot_be_found_fails_the_chunk() {
    let (dir, repo) = new_repo();
    let root = commit(&repo, Some("HEAD"), &[], &[("f", &lines(7))], "alice", 0);
    let missing = Oid::from_bytes(&[7; 20]).unwrap();
    assert!(matches!(
        process_commit_chunk(&repo, &[root, missing], "All"),
        Err(ChunkTaskError::Handle(_))
    ));
    assert!(matches!(
        read_commit(&repo, missing, "All"),
        Err(ChunkTaskError::Handle(_))
    ));
    assert!(matches!(
        process_chunk_at("/nonexistent/path", &[root], "All"),
        Err(ChunkTaskError::Handle(_))
    ));
    assert!(process_chunk_at(&path_of(&dir), &[root], "All").is_ok());
    assert_eq!(
        process_chunk_at(&path_of(&dir), &[], "All").unwrap().commit_count(),
        0
    );
}

#[test]
fn commits_are_enumerated_from_the_newest_back() {
    let (_dir, repo) = new_repo();
    let a = commit(&repo, Some("HEAD"), &[], &[("f", &lines(1))], "alice", 0);
    let b = commit(&repo, Some("HEAD"), &[a], &[("f", &lines(2))], "alice", DAY);
    let c = commit(&repo, Some("HEAD"), &[b], &[("f", &lines(3))], "alice", 2 * DAY);
    assert_eq!(enumerate_commits(&repo, "main").unwrap(), vec![c, b, a]);
}

#[test]
fn commits_are_enumerated_from_the_branch_asked_for() {
    let (_dir, repo) = new_repo();
    let a = commit(&repo, Some("HEAD"), &[], &[("f", &lines(1))], "alice", 0);
    let b = commit(&repo, Some("HEAD"), &[a], &[("f", &lines(2))], "alice", DAY);
    let side = commit(&repo, None, &[a], &[("g", &lines(2))], "bob", 2 * DAY);
    repo.branch("feature", &repo.find_commit(side).unwrap(), false)
        .unwrap();
    assert_eq!(enumerate_commits(&repo, "feature").unwrap(), vec![side, a]);
    assert_eq!(enumerate_commits(&repo, "main").unwrap(), vec![b, a]);
    // A branch that does not exist: the walk starts at the head.
    assert_eq!(enumerate_commits(&repo, "missing").unwrap(), vec![b, a]);
}

#[test]
fn a_repository_without_commits_cannot_be_enumerated() {
    let (dir, repo) = new_repo();
    assert!(matches!(
        enumerate_commits(&repo, "main"),
        Err(AnalysisError::Enumeration(_))
    ));
    assert!(matches!(
        analyze_repo_with_filter(&path_of(&dir), "main", "All"),
        Err(AnalysisError::Enumeration(_))
    ));
}

#[test]
fn the_walk_starts_at_the_reference_of_a_branch_that_was_found() {
    assert!(matches!(
        walk_start(Some(Some("refs/heads/main".to_string()))),
        WalkStart::Reference(name) if name == "refs/heads/main"
    ));
    assert!(matches!(walk_start(Some(None)), WalkStart::Head));
    assert!(matches!(walk_start(None), WalkStart::Head));
}

#[test]
fn branches_are_listed_with_main_first() {
    let (dir, repo) = new_repo();
    let a = commit(&repo, Some("HEAD"), &[], &[("f", &lines(1))], "alice", 0);
    let tip = repo.find_commit(a).unwrap();
    repo.branch("feature", &tip, false).unwrap();
    repo.branch("develop", &tip, false).unwrap();
    assert_eq!(
        get_available_branches(&repo).unwrap(),
        vec!["main", "feature", "develop"]
    );
    assert_eq!(
        list_branches(&path_of(&dir)).unwrap(),
        vec!["main", "feature", "develop"]
    );
}

#[test]
fn branches_are_listed_with_master_first_without_main() {
    let dir = TempDir::new().unwrap();
    let mut options = RepositoryInitOptions::new();
    options.initial_head("master");
    let repo = Repository::init_opts(dir.path(), &options).unwrap();
    let a = commit(&repo, Some("HEAD"), &[], &[("f", &lines(1))], "alice", 0);
    repo.branch("feature", &repo.find_commit(a).unwrap(), false)
        .unwrap();
    assert_eq!(
        get_available_branches(&repo).unwrap(),
        vec!["master", "feature"]
    );
}

#[test]
fn a_repository_without_branches_lists_none() {
    let (_dir, repo) = new_repo();
    assert!(get_available_branches(&repo).unwrap().is_empty());
}

#[test]
fn a_path_without_repository_cannot_be_opened() {
    assert!(matches!(open("/nonexistent/path"), Err(AnalysisError::Open(_))));
    assert!(matches!(
        list_branches("/nonexistent/path"),
        Err(AnalysisError::Open(_))
    ));
    let (dir, _repo) = new_repo();
    assert!(open(&path_of(&dir)).is_ok());
}

#[test]
fn a_long_history_is_counted_chunk_by_chunk() {
    let (dir, repo) = new_repo();
    let mut tip = commit(&repo, Some("HEAD"), &[], &[("f", &lines(1))], "alice", 0);
    for i in 1..250usize {
        let author = if i % 3 == 0 { "bob" } else { "alice" };
        tip = commit(
            &repo,
            Some("HEAD"),
            &[tip],
            &[("f", &lines(1 + i))],
            author,
            i as i64 * DAY,
        );
    }
    let report = analyze_repo_with_filter(&path_of(&dir), "main", "All").unwrap();
    assert_eq!(report.result.commit_count, 250);
    assert_eq!(report.result.total_lines_added, 250);
    assert_eq!(report.result.total_lines_deleted, 0);
    assert_eq!(report.result.commit_activity.len(), 250);
    assert_eq!(report.result.commit_activity[0].0, "1970-09-07");
    assert_eq!(report.result.commit_activity[249].0, "1970-01-01");
    assert_eq!(
        report.result.top_contributors,
        vec![("alice".to_string(), 167), ("bob".to_string(), 83)]
    );
    assert_eq!(report.dropped_chunks, 0);
    assert!(report.progress.len() >= 2);
    for pair in report.progress.windows(2) {
        assert!(pair[0].processed_commits <= pair[1].processed_commits);
        assert_eq!(pair[1].total_commits, 250);
    }
    assert_eq!(report.progress.last().unwrap().processed_commits, 250);
}

#[test]
fn a_session_analyses_filters_and_caches() {
    let (dir, repo) = new_repo();
    let mut tip = commit(&repo, Some("HEAD"), &[], &[], "Test User", 0);
    let files = [
        ("file1.txt", "Hello\nWorld\n"),
        ("file2.txt", "Test\nContent\n"),
        ("main.rs", "fn main() {\n    println!(\"Hello\");\n}\n"),
    ];
    for (i, _) in files.iter().enumerate() {
        tip = commit(
            &repo,
            Some("HEAD"),
            &[tip],
            &files[..=i],
            "Test User",
            (i as i64 + 1) * DAY,
        );
    }

    let mut app = App::default();
    app.repo_path = path_of(&dir);
    assert_eq!(app.commit_count, 0);
    assert!(app.top_contributors.is_empty());

    let report =
        analyze_repo_with_filter(&app.repo_path, "main", "All").unwrap();
    app.update_with_result(report.result);

    assert!(app.commit_count > 0);
    assert_eq!(app.commit_count, 4);
    assert!(!app.top_contributors.is_empty());
    assert!(app.total_lines_added > 0);
    assert_eq!(app.total_lines_added, 7);
    assert_eq!(app.selected_contributor, "All");
    assert!(!app.available_branches.is_empty());

    let contributor = app.top_contributors.first().unwrap().0.clone();
    app.selected_contributor = contributor.clone();
    let report =
        analyze_repo_with_filter(&app.repo_path, &app.selected_branch, &contributor).unwrap();
    app.update_with_result(report.result);
    assert!(app.commit_count > 0);

    assert!(app
        .get_cached_result(&app.selected_branch, &app.selected_contributor)
        .is_some());
    assert!(app.get_cached_result("main", "All").is_some());
    assert!(app.get_cached_result("main", "Nobody").is_none());
}

#[test]
fn an_empty_chunk_reads_nothing_and_counts_nothing() {
    let (_dir, repo) = new_repo();
    // The repository has no commit at all: nothing is looked up.
    let stats = process_commit_chunk(&repo, &[], "All").unwrap();
    assert_eq!(stats.commit_count(), 0);
    assert_eq!(stats.lines_added(), 0);
    assert_eq!(stats.lines_deleted(), 0);
    assert!(stats.activity_log().is_empty());
    assert_eq!(stats.author_counts().total(), 0);
    // Without a repository the chunk fails for its handle, empty or not.
    assert!(matches!(
        process_chunk_at("/nonexistent/path", &[], "All"),
        Err(ChunkTaskError::Handle(_))
    ));
}
