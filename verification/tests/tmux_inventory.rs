use pdo_daemon::session::{attached_from_output, pdo_sessions_in};
use pdo_daemon::workdir::{path_join, working_dir_for_node};

#[test]
fn listing_keeps_pdo_sessions_once_each() {
    let listing = "pdo-mgr-r1\nother\npdo-r1-solo-iter-1\npdo-mgr-r1\n\nxpdo-no\npdo-shell-r1";
    assert_eq!(
        pdo_sessions_in(listing),
        vec![
            "pdo-mgr-r1".to_string(),
            "pdo-r1-solo-iter-1".to_string(),
            "pdo-shell-r1".to_string()
        ]
    );
}

#[test]
fn listing_with_crlf_and_no_sessions() {
    assert_eq!(pdo_sessions_in("pdo-a\r\npdo-b\n"), vec!["pdo-a".to_string(), "pdo-b".to_string()]);
    assert!(pdo_sessions_in("").is_empty());
    assert!(pdo_sessions_in("main\nwork\n").is_empty());
}

#[test]
fn attached_count_reads_positive_numbers_only() {
    assert!(attached_from_output("1\n"));
    assert!(attached_from_output("  3 "));
    assert!(!attached_from_output("0\n"));
    assert!(!attached_from_output("-1"));
    assert!(!attached_from_output(""));
    assert!(!attached_from_output("yes"));
}

#[test]
fn a_code_mutating_node_works_in_its_own_iteration_dir() {
    assert_eq!(
        working_dir_for_node("/repo", "r1", "solo", 2, "code-mutating"),
        "/repo/.pdo/runs/r1/nodes/solo/iter-2"
    );
}

#[test]
fn other_nodes_share_the_run_worktree() {
    assert_eq!(working_dir_for_node("/repo", "r1", "solo", 2, "review"), "/repo/.pdo/runs/r1/worktree");
    assert_eq!(working_dir_for_node("/repo/", "r1", "solo", 1, ""), "/repo/.pdo/runs/r1/worktree");
}

#[test]
fn joining_follows_path_push() {
    assert_eq!(path_join("/a", "b"), "/a/b");
    assert_eq!(path_join("/a/", "b"), "/a/b");
    assert_eq!(path_join("", "b"), "b");
    assert_eq!(path_join("/a", "/etc"), "/etc");
    assert_eq!(path_join("/a", ""), "/a/");
}
