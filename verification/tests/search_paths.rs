use pdo_daemon::search_path::union_paths;

#[test]
fn union_paths_merges_first_precedence_dedup_order_preserved() {
    assert_eq!(union_paths("/opt/homebrew/bin:/usr/bin", "/usr/bin:/bin"), "/opt/homebrew/bin:/usr/bin:/bin");
    // Empty operands collapse cleanly.
    assert_eq!(union_paths("", "/usr/bin:/bin"), "/usr/bin:/bin");
    assert_eq!(union_paths("/usr/bin", ""), "/usr/bin");
    assert_eq!(union_paths("", ""), "");
    // A stray empty entry ("::") never becomes a "search the cwd" hole.
    assert_eq!(union_paths("/a::/b", "/b"), "/a:/b");
}

#[test]
fn one_directory_written_two_ways_is_kept_once_as_first_written() {
    assert_eq!(union_paths("/usr/bin/", "/usr//bin:/bin"), "/usr/bin/:/bin");
    assert_eq!(union_paths("a/./b", "a/b"), "a/./b");
    // A leading `.` is a component of its own.
    assert_eq!(union_paths("./tools", "tools"), "./tools:tools");
    assert_eq!(union_paths("/x:/x:/y", "/y:/z"), "/x:/y:/z");
}
