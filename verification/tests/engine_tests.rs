//! Traversal engine scenarios over the in-memory commit store.

use git_snipe::cli::parse_args;
use git_snipe::errors::HistoryError;
use git_snipe::graph::CommitGraph;
use git_snipe::engine::traverse;
use git_snipe::ids::CommitId;
use git_snipe::record::CommitRecord;

fn cid(s: &str) -> CommitId {
    CommitId::new(s.to_string())
}

fn linear_graph() -> CommitGraph {
    // A (root) <- B <- C, with C as head
    let mut g = CommitGraph::new();
    g.add_commit(cid("aaaa"), Some("first".to_string()), vec![]);
    g.add_commit(cid("bbbb"), Some("second".to_string()), vec![cid("aaaa")]);
    g.add_commit(cid("cccc"), Some("third".to_string()), vec![cid("bbbb")]);
    g.set_head(cid("cccc"));
    g
}

fn lines(records: &Vec<CommitRecord>) -> Vec<String> {
    records.iter().map(|r| r.format_line()).collect()
}

#[test]
fn linear_history_in_order() {
    let g = linear_graph();
    let start = g.resolve_head().ok().unwrap();
    let out = traverse(&g, &start);
    assert!(out.failed.is_none());
    assert_eq!(
        lines(&out.records),
        vec![
            "cccc: third\n".to_string(),
            "bbbb: second\n".to_string(),
            "aaaa: first\n".to_string(),
        ]
    );
}

#[test]
fn merge_emits_shared_ancestor_once() {
    // A (root) <- B and A <- C, M merges B and C; every commit reachable
    // from M appears exactly once, first-parent line before the branch-in
    let mut g = CommitGraph::new();
    g.add_commit(cid("a0"), Some("root".to_string()), vec![]);
    g.add_commit(cid("b0"), Some("left".to_string()), vec![cid("a0")]);
    g.add_commit(cid("c0"), Some("right".to_string()), vec![cid("a0")]);
    g.add_commit(cid("m0"), Some("merge".to_string()), vec![cid("b0"), cid("c0")]);
    g.set_head(cid("m0"));
    let start = g.resolve_head().ok().unwrap();
    let out = traverse(&g, &start);
    assert!(out.failed.is_none());
    let ids: Vec<String> = out.records.iter().map(|r| r.hash()).collect();
    assert_eq!(
        ids,
        vec!["m0".to_string(), "b0".to_string(), "a0".to_string(), "c0".to_string()]
    );
    let ancestor_count = ids.iter().filter(|h| h.as_str() == "a0").count();
    assert_eq!(ancestor_count, 1);
}

#[test]
fn empty_store_has_no_head() {
    let g = CommitGraph::new();
    let r = g.resolve_head();
    assert!(matches!(r, Err(HistoryError::FailedToResolveHead)));
}

#[test]
fn unknown_start_reports_failure_with_no_records() {
    let g = CommitGraph::new();
    let out = traverse(&g, &cid("dddd"));
    assert_eq!(out.records.len(), 0);
    assert_eq!(out.failed.map(|id| id.hex), Some("dddd".to_string()));
}

#[test]
fn missing_parent_ends_walk_early() {
    // B's parent is absent from the store: the records before the failure
    // are kept and the failing identifier is reported
    let mut g = CommitGraph::new();
    g.add_commit(cid("bbbb"), Some("second".to_string()), vec![cid("aaaa")]);
    let out = traverse(&g, &cid("bbbb"));
    assert_eq!(lines(&out.records), vec!["bbbb: second\n".to_string()]);
    assert_eq!(out.failed.map(|id| id.hex), Some("aaaa".to_string()));
}

#[test]
fn missing_message_uses_placeholder() {
    let mut g = CommitGraph::new();
    g.add_commit(cid("aaaa"), None, vec![]);
    let out = traverse(&g, &cid("aaaa"));
    assert_eq!(lines(&out.records), vec!["aaaa: NO MESSAGE\n".to_string()]);
}

#[test]
fn empty_message_stays_empty() {
    // an empty message is present, not absent: emitted verbatim
    let mut g = CommitGraph::new();
    g.add_commit(cid("aaaa"), Some(String::new()), vec![]);
    let out = traverse(&g, &cid("aaaa"));
    assert_eq!(lines(&out.records), vec!["aaaa: \n".to_string()]);
}

#[test]
fn traversal_is_deterministic() {
    let g = linear_graph();
    let start = g.resolve_head().ok().unwrap();
    let first = traverse(&g, &start);
    let second = traverse(&g, &start);
    assert_eq!(lines(&first.records), lines(&second.records));
    assert_eq!(first.failed.is_none(), second.failed.is_none());
}

#[test]
fn record_accessors_and_line() {
    let rec = CommitRecord::new(cid("abcd"), Some("hello".to_string()), vec![cid("aaaa")]);
    assert_eq!(rec.hash(), "abcd".to_string());
    assert_eq!(rec.output(), "hello".to_string());
    assert_eq!(rec.format_line(), "abcd: hello\n".to_string());
    assert_eq!(rec.parent_ids.len(), 1);
}

#[test]
fn rejects_wrong_argument_counts() {
    let none: Vec<String> = vec!["git_snipe".to_string()];
    assert!(matches!(parse_args(&none), Err(HistoryError::FailedToParseArgs)));
    let two = vec!["git_snipe".to_string(), "a".to_string(), "b".to_string()];
    assert!(matches!(parse_args(&two), Err(HistoryError::FailedToParseArgs)));
}

#[test]
fn accepts_single_path_argument() {
    let args = vec!["git_snipe".to_string(), "/some/repo".to_string()];
    let config = parse_args(&args).ok().unwrap();
    assert_eq!(config.repo_path, "/some/repo".to_string());
}
