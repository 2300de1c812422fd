use pdo_daemon::diff::{
    is_safe_path, is_safe_ref, parse_patch, summarize, DiffLine, FileDiff, FileStatus, GitError,
    LineKind,
};

fn one(raw: &str) -> FileDiff {
    let files = parse_patch(raw);
    assert_eq!(files.len(), 1, "expected one file: {files:?}");
    files.into_iter().next().unwrap()
}

#[test]
fn empty_and_whitespace_yield_no_files() {
    assert!(parse_patch("").is_empty());
    assert!(parse_patch("  \n\n\t").is_empty());
}

#[test]
fn modified_file_with_counts_and_line_numbers() {
    let raw = "diff --git a/src/a.rs b/src/a.rs\nindex 111..222 100644\n--- a/src/a.rs\n+++ b/src/a.rs\n@@ -1,3 +1,3 @@ fn ctx\n ctx\n-old a\n+new a\n ctx2\n";
    let f = one(raw);
    assert_eq!(f.old_path.as_deref(), Some("src/a.rs"));
    assert_eq!(f.new_path.as_deref(), Some("src/a.rs"));
    assert_eq!(f.status, FileStatus::Modified);
    assert!(!f.binary);
    assert_eq!((f.additions, f.deletions), (1, 1));
    assert_eq!(f.hunks.len(), 1);
    let h = &f.hunks[0];
    assert_eq!(
        (h.old_start, h.old_lines, h.new_start, h.new_lines),
        (1, 3, 1, 3)
    );
    assert_eq!(h.header, "fn ctx");
    assert_eq!(
        h.lines,
        vec![
            DiffLine {
                kind: LineKind::Context,
                content: "ctx".into(),
                old_no: Some(1),
                new_no: Some(1)
            },
            DiffLine {
                kind: LineKind::Del,
                content: "old a".into(),
                old_no: Some(2),
                new_no: None
            },
            DiffLine {
                kind: LineKind::Add,
                content: "new a".into(),
                old_no: None,
                new_no: Some(2)
            },
            DiffLine {
                kind: LineKind::Context,
                content: "ctx2".into(),
                old_no: Some(3),
                new_no: Some(3)
            },
        ]
    );
}

#[test]
fn multiple_files_preserve_order() {
    let raw = [
        "diff --git a/src/a.rs b/src/a.rs",
        "--- a/src/a.rs",
        "+++ b/src/a.rs",
        "@@ -1 +1 @@",
        "-old a",
        "+new a",
        "diff --git a/src/b.rs b/src/b.rs",
        "new file mode 100644",
        "index 0000000..333",
        "--- /dev/null",
        "+++ b/src/b.rs",
        "@@ -0,0 +1,2 @@",
        "+line 1",
        "+line 2",
        "",
    ]
    .join("\n");
    let files = parse_patch(&raw);
    assert_eq!(files.len(), 2);
    assert_eq!(files[0].new_path.as_deref(), Some("src/a.rs"));
    assert_eq!(files[1].new_path.as_deref(), Some("src/b.rs"));
    assert_eq!(files[1].status, FileStatus::Added);
    assert!(files[1].old_path.is_none());
    assert_eq!((files[1].additions, files[1].deletions), (2, 0));
    assert_eq!(files[1].hunks[0].lines[0].new_no, Some(1));
    assert_eq!(files[1].hunks[0].lines[1].new_no, Some(2));
}

#[test]
fn deletion_has_no_new_path() {
    let raw = "diff --git a/gone.rs b/gone.rs\ndeleted file mode 100644\n--- a/gone.rs\n+++ /dev/null\n@@ -1,2 +0,0 @@\n-a\n-b\n";
    let f = one(raw);
    assert_eq!(f.status, FileStatus::Deleted);
    assert_eq!(f.old_path.as_deref(), Some("gone.rs"));
    assert!(f.new_path.is_none());
    assert_eq!((f.additions, f.deletions), (0, 2));
}

#[test]
fn pure_rename_without_hunks() {
    let raw = "diff --git a/old.rs b/new.rs\nsimilarity index 100%\nrename from old.rs\nrename to new.rs\n";
    let f = one(raw);
    assert_eq!(f.status, FileStatus::Renamed);
    assert_eq!(f.old_path.as_deref(), Some("old.rs"));
    assert_eq!(f.new_path.as_deref(), Some("new.rs"));
    assert_eq!((f.additions, f.deletions), (0, 0));
    assert!(f.hunks.is_empty());
}

#[test]
fn rename_with_edits_keeps_counts() {
    let raw = "diff --git a/old.rs b/new.rs\nsimilarity index 90%\nrename from old.rs\nrename to new.rs\n--- a/old.rs\n+++ b/new.rs\n@@ -1 +1 @@\n-x\n+y\n";
    let f = one(raw);
    assert_eq!(f.status, FileStatus::Renamed);
    assert_eq!(f.new_path.as_deref(), Some("new.rs"));
    assert_eq!((f.additions, f.deletions), (1, 1));
}

#[test]
fn copy_is_recognised() {
    let raw = "diff --git a/a.rs b/b.rs\nsimilarity index 100%\ncopy from a.rs\ncopy to b.rs\n";
    let f = one(raw);
    assert_eq!(f.status, FileStatus::Copied);
    assert_eq!(f.old_path.as_deref(), Some("a.rs"));
    assert_eq!(f.new_path.as_deref(), Some("b.rs"));
}

#[test]
fn modified_binary_is_binary_with_zero_counts() {
    let raw = "diff --git a/img.png b/img.png\nindex 111..222 100644\nBinary files a/img.png and b/img.png differ\n";
    let f = one(raw);
    assert!(f.binary);
    assert_eq!(f.status, FileStatus::Modified);
    assert_eq!(f.new_path.as_deref(), Some("img.png"));
    assert_eq!((f.additions, f.deletions), (0, 0));
}

#[test]
fn new_binary_is_added() {
    let raw = "diff --git a/img.png b/img.png\nnew file mode 100644\nindex 0000000..222\nBinary files /dev/null and b/img.png differ\n";
    let f = one(raw);
    assert!(f.binary);
    assert_eq!(f.status, FileStatus::Added);
    assert!(f.old_path.is_none());
    assert_eq!(f.new_path.as_deref(), Some("img.png"));
}

#[test]
fn git_binary_patch_marker_is_binary() {
    let raw = "diff --git a/x.bin b/x.bin\nindex 111..222 100644\nGIT binary patch\nliteral 3\nKcmZQzWMKEfU|<7;00000\n\n";
    let f = one(raw);
    assert!(f.binary);
    assert_eq!(f.new_path.as_deref(), Some("x.bin"));
    assert!(f.hunks.is_empty());
}

#[test]
fn path_with_spaces_uses_trailing_tab() {
    let raw = "diff --git a/my file.txt b/my file.txt\n--- a/my file.txt\t\n+++ b/my file.txt\t\n@@ -1 +1 @@\n-a\n+b\n";
    let f = one(raw);
    assert_eq!(f.new_path.as_deref(), Some("my file.txt"));
}

#[test]
fn c_quoted_unicode_path_is_decoded() {
    let raw = "diff --git \"a/caf\\303\\251.txt\" \"b/caf\\303\\251.txt\"\n--- \"a/caf\\303\\251.txt\"\n+++ \"b/caf\\303\\251.txt\"\n@@ -1 +1 @@\n-a\n+b\n";
    let f = one(raw);
    assert_eq!(f.new_path.as_deref(), Some("café.txt"));
}

#[test]
fn no_newline_marker_is_not_counted() {
    let raw = "diff --git a/f b/f\n--- a/f\n+++ b/f\n@@ -1 +1 @@\n-a\n\\ No newline at end of file\n+b\n\\ No newline at end of file\n";
    let f = one(raw);
    assert_eq!((f.additions, f.deletions), (1, 1));
    assert_eq!(f.hunks[0].lines.len(), 2);
}

#[test]
fn malformed_chunk_never_panics() {
    let f = one("diff --git nonsense\n@@ garbage @@\n+x\n");
    assert!(f.old_path.is_none() && f.new_path.is_none());
    assert_eq!(f.additions, 0);
}

#[test]
fn mode_only_change_takes_path_from_header() {
    let raw = "diff --git a/run.sh b/run.sh\nold mode 100644\nnew mode 100755\n";
    let f = one(raw);
    assert_eq!(f.new_path.as_deref(), Some("run.sh"));
    assert_eq!(f.status, FileStatus::Modified);
}

#[test]
fn two_hunks_restart_numbering() {
    let raw = "diff --git a/f b/f\n--- a/f\n+++ b/f\n@@ -1,2 +1,2 @@\n a\n-b\n+B\n@@ -10,2 +10,3 @@\n j\n+K\n k\n";
    let f = one(raw);
    assert_eq!(f.hunks.len(), 2);
    assert_eq!(f.hunks[1].lines[0].old_no, Some(10));
    assert_eq!(f.hunks[1].lines[1].new_no, Some(11));
    assert_eq!(f.hunks[1].lines[2].old_no, Some(11));
    assert_eq!(f.hunks[1].lines[2].new_no, Some(12));
}

#[test]
fn ref_and_path_safety() {
    assert!(is_safe_ref("pdo/run-abc"));
    assert!(is_safe_ref("a1b2c3^{commit}"));
    assert!(!is_safe_ref(""));
    assert!(!is_safe_ref("--output=/tmp/x"));
    assert!(!is_safe_ref("a b"));
    assert!(is_safe_path("src/lib.rs"));
    assert!(is_safe_path("my file.txt"));
    assert!(!is_safe_path("../etc/passwd"));
    assert!(!is_safe_path("/etc/passwd"));
    assert!(!is_safe_path("-x"));
    assert!(!is_safe_path(""));
}

#[test]
fn control_characters_make_a_ref_unsafe() {
    assert!(!is_safe_ref("a\u{7}b"));
    assert!(!is_safe_ref("a\u{85}b"));
    assert!(!is_safe_path("a\0b"));
    assert!(!is_safe_path("a/../b"));
    assert!(is_safe_path("a/..b"));
}

#[test]
fn escapes_and_octal_bytes_are_unquoted() {
    // A tab escape, an escaped quote, an escaped backslash and a lone octal digit.
    let raw = "diff --git a/x b/x\n--- \"a/t\\tq\\\"s\\\\o\\101\"\n+++ \"b/t\\tq\\\"s\\\\o\\101\"\n";
    let f = one(raw);
    assert_eq!(f.new_path.as_deref(), Some("t\tq\"s\\oA"));
    // An invalid UTF-8 byte is replaced, never a failure.
    let raw = "diff --git a/x b/x\n--- \"a/\\377\"\n+++ \"b/\\377\"\n";
    let f = one(raw);
    assert_eq!(f.new_path.as_deref(), Some("\u{fffd}"));
}

#[test]
fn hunk_header_without_counts_defaults_them_to_one() {
    let raw = "diff --git a/f b/f\n--- a/f\n+++ b/f\n@@ -7 +9 @@\n-a\n+b\n";
    let f = one(raw);
    let h = &f.hunks[0];
    assert_eq!((h.old_start, h.old_lines, h.new_start, h.new_lines), (7, 1, 9, 1));
    assert_eq!(h.header, "");
    assert_eq!(h.lines[0].old_no, Some(7));
    assert_eq!(h.lines[1].new_no, Some(9));
}

#[test]
fn preamble_before_the_first_file_is_dropped() {
    let raw = "warning: something\ndiff --git a/f b/f\n--- a/f\n+++ b/f\n";
    let files = parse_patch(raw);
    assert_eq!(files.len(), 1);
    assert_eq!(files[0].new_path.as_deref(), Some("f"));
}

#[test]
fn unknown_revision_errors_are_recognised() {
    let failed = |s: &str| GitError::Failed { stderr: s.into() };
    assert!(failed("fatal: bad revision 'x'").is_unknown_revision());
    assert!(failed("fatal: not a git repository (or any parent)").is_unknown_revision());
    assert!(failed("fatal: ambiguous argument: unknown revision").is_unknown_revision());
    assert!(failed("fatal: Not a valid object name x").is_unknown_revision());
    assert!(failed("error: invalid object name").is_unknown_revision());
    assert!(!failed("fatal: out of memory").is_unknown_revision());
    assert!(!GitError::Spawn("no such file".into()).is_unknown_revision());
}

#[test]
fn the_summary_totals_the_files() {
    let raw = "diff --git a/a b/a\n--- a/a\n+++ b/a\n@@ -1 +1,2 @@\n-x\n+y\n+z\ndiff --git a/b b/b\n--- a/b\n+++ b/b\n@@ -1,2 +1 @@\n-p\n-q\n+r\n";
    let files = parse_patch(raw);
    let d = summarize("main".into(), "HEAD".into(), None, Some("abc".into()), true, files);
    assert_eq!((d.additions, d.deletions, d.files_changed), (3, 3, 2));
    assert_eq!(d.from_ref, "main");
    assert_eq!(d.to_sha.as_deref(), Some("abc"));
    assert!(d.three_dot);
}

#[test]
fn a_git_error_reads_as_a_failed_diff() {
    assert_eq!(
        GitError::Spawn("No such file or directory".to_string()).message(),
        "git diff failed: No such file or directory"
    );
    assert_eq!(
        GitError::Failed { stderr: "fatal: bad revision 'x'".to_string() }.message(),
        "git diff failed: fatal: bad revision 'x'"
    );
}

#[test]
fn a_malformed_chunk_still_yields_a_file() {
    let files = parse_patch("diff --git nonsense\n@@ garbage @@\n+x\n");
    assert_eq!(files.len(), 1);
    let f = &files[0];
    assert_eq!(f.old_path, None);
    assert_eq!(f.new_path, None);
    assert_eq!(f.additions, 0);
}

#[test]
fn the_summary_totals_wrap_as_u32_sums() {
    let mut big = parse_patch("diff --git a/a b/a\n--- a/a\n+++ b/a\n@@ -1 +1 @@\n-x\n+y\n");
    let mut small = parse_patch("diff --git a/b b/b\n--- a/b\n+++ b/b\n@@ -1 +1,2 @@\n-p\n+q\n+r\n");
    big[0].additions = u32::MAX;
    small[0].additions = 2;
    big.append(&mut small);
    let d = summarize("a".into(), "b".into(), None, None, false, big);
    assert_eq!((d.additions, d.deletions, d.files_changed), (1, 2, 2));
}
