//! End-to-end scenarios against real on-disk repositories, built and read
//! through the same accessor the library relies on.

use git_snipe::cli::{parse_args, Config};
use git_snipe::errors::HistoryError;
use git_snipe::repo::{find_commits, open_repository, resolve_head, HistoryWalk};

fn unique_path(tag: &str) -> String {
    let nanos = std::time::SystemTime::now()
        .duration_since(std::time::UNIX_EPOCH)
        .unwrap()
        .as_nanos();
    format!("/tmp/git_snipe_{}_{}", tag, nanos)
}

fn empty_tree(repo: &git2::Repository) -> git2::Oid {
    let tb = repo.treebuilder(None).unwrap();
    tb.write().unwrap()
}

fn config_for(path: &str) -> Config {
    let args = vec!["git_snipe".to_string(), path.to_string()];
    parse_args(&args).ok().unwrap()
}

#[test]
fn invalid_path_fails_to_open() {
    let path = unique_path("missing");
    let r = open_repository(&path);
    assert!(matches!(r, Err(HistoryError::FailedToOpenRepository)));
    let r2 = find_commits(config_for(&path));
    assert!(matches!(r2, Err(HistoryError::FailedToOpenRepository)));
}

#[test]
fn empty_repository_fails_to_resolve_head() {
    let path = unique_path("empty");
    git2::Repository::init(&path).unwrap();
    let repo = open_repository(&path).ok().unwrap();
    let r = resolve_head(&repo);
    assert!(matches!(r, Err(HistoryError::FailedToResolveHead)));
    let r2 = find_commits(config_for(&path));
    assert!(matches!(r2, Err(HistoryError::FailedToResolveHead)));
}

#[test]
fn linear_repository_lists_head_first() {
    let path = unique_path("linear");
    let repo = git2::Repository::init(&path).unwrap();
    let sig = git2::Signature::now("tester", "tester@example.com").unwrap();
    let tree = repo.find_tree(empty_tree(&repo)).unwrap();
    let a = repo.commit(Some("HEAD"), &sig, &sig, "first", &tree, &[]).unwrap();
    let a_commit = repo.find_commit(a).unwrap();
    let b = repo.commit(Some("HEAD"), &sig, &sig, "second", &tree, &[&a_commit]).unwrap();
    let b_commit = repo.find_commit(b).unwrap();
    let c = repo.commit(Some("HEAD"), &sig, &sig, "third", &tree, &[&b_commit]).unwrap();

    let records = find_commits(config_for(&path)).ok().unwrap();
    let lines: Vec<String> = records.iter().map(|r| r.format_line()).collect();
    assert_eq!(
        lines,
        vec![
            format!("{}: third\n", c),
            format!("{}: second\n", b),
            format!("{}: first\n", a),
        ]
    );
}

#[test]
fn merge_repository_emits_shared_ancestor_once() {
    let path = unique_path("merge");
    let repo = git2::Repository::init(&path).unwrap();
    let sig = git2::Signature::now("tester", "tester@example.com").unwrap();
    let tree = repo.find_tree(empty_tree(&repo)).unwrap();
    let a = repo.commit(Some("HEAD"), &sig, &sig, "root", &tree, &[]).unwrap();
    let a_commit = repo.find_commit(a).unwrap();
    let b = repo.commit(Some("HEAD"), &sig, &sig, "left", &tree, &[&a_commit]).unwrap();
    let b_commit = repo.find_commit(b).unwrap();
    let c = repo.commit(None, &sig, &sig, "right", &tree, &[&a_commit]).unwrap();
    let c_commit = repo.find_commit(c).unwrap();
    let m = repo
        .commit(Some("HEAD"), &sig, &sig, "merge", &tree, &[&b_commit, &c_commit])
        .unwrap();

    let records = find_commits(config_for(&path)).ok().unwrap();
    let ids: Vec<String> = records.iter().map(|r| r.hash()).collect();
    assert_eq!(
        ids,
        vec![m.to_string(), b.to_string(), a.to_string(), c.to_string()]
    );
    let ancestor_count = ids.iter().filter(|h| **h == a.to_string()).count();
    assert_eq!(ancestor_count, 1);
}

#[test]
fn unloadable_head_object_reports_lookup_failure() {
    // the head resolves, but to an object that is not a commit: the
    // traversal ends with the per-node lookup error instead of crashing
    let path = unique_path("badhead");
    let repo = git2::Repository::init(&path).unwrap();
    let tree_oid = empty_tree(&repo);
    let head_ref = repo.find_reference("HEAD").unwrap();
    let branch = head_ref.symbolic_target().unwrap().unwrap().to_string();
    repo.reference(&branch, tree_oid, true, "point at a tree").unwrap();
    let r = find_commits(config_for(&path));
    assert!(matches!(r, Err(HistoryError::FailedToLoadCommit)));
}

#[test]
fn two_traversals_print_identically() {
    let path = unique_path("deterministic");
    let repo = git2::Repository::init(&path).unwrap();
    let sig = git2::Signature::now("tester", "tester@example.com").unwrap();
    let tree = repo.find_tree(empty_tree(&repo)).unwrap();
    let a = repo.commit(Some("HEAD"), &sig, &sig, "one", &tree, &[]).unwrap();
    let a_commit = repo.find_commit(a).unwrap();
    repo.commit(Some("HEAD"), &sig, &sig, "two", &tree, &[&a_commit]).unwrap();

    let first = find_commits(config_for(&path)).ok().unwrap();
    let second = find_commits(config_for(&path)).ok().unwrap();
    let out1: Vec<String> = first.iter().map(|r| r.format_line()).collect();
    let out2: Vec<String> = second.iter().map(|r| r.format_line()).collect();
    assert_eq!(out1, out2);
}

#[test]
fn streaming_walk_matches_collected_history() {
    let path = unique_path("stream");
    let repo_raw = git2::Repository::init(&path).unwrap();
    let sig = git2::Signature::now("tester", "tester@example.com").unwrap();
    let tree = repo_raw.find_tree(empty_tree(&repo_raw)).unwrap();
    let a = repo_raw.commit(Some("HEAD"), &sig, &sig, "one", &tree, &[]).unwrap();
    let a_commit = repo_raw.find_commit(a).unwrap();
    repo_raw.commit(Some("HEAD"), &sig, &sig, "two", &tree, &[&a_commit]).unwrap();

    let repo = open_repository(&path).ok().unwrap();
    let start = resolve_head(&repo).ok().unwrap();
    let mut walk = HistoryWalk::begin(start);
    let mut streamed: Vec<String> = Vec::new();
    loop {
        match walk.next_record(&repo) {
            Ok(Some(rec)) => streamed.push(rec.format_line()),
            Ok(None) => break,
            Err(e) => panic!("walk failed: {:?}", e),
        }
    }
    let collected = find_commits(config_for(&path)).ok().unwrap();
    let lines: Vec<String> = collected.iter().map(|r| r.format_line()).collect();
    assert_eq!(streamed, lines);
    assert_eq!(streamed.len(), 2);
}
