use pdo_daemon::infra_session::{absence_reason, resolve_infra_session, session_stem_of, InfraSession};

fn names(v: &[&str]) -> Vec<String> {
    v.iter().map(|s| s.to_string()).collect()
}

#[test]
fn the_one_unclaimed_session_file_is_the_roles() {
    let listing = names(&["node-a.jsonl", "manager.jsonl", "notes.txt"]);
    let claimed = names(&["node-a"]);
    assert_eq!(
        resolve_infra_session(Some(&listing), &claimed, false),
        InfraSession::One("manager".to_string())
    );
}

#[test]
fn two_unclaimed_files_are_ambiguous() {
    let listing = names(&["x.jsonl", "y.jsonl"]);
    assert_eq!(resolve_infra_session(Some(&listing), &vec![], false), InfraSession::Ambiguous);
}

#[test]
fn a_directory_of_claimed_files_only_is_an_absence() {
    let listing = names(&["a.jsonl", "b.jsonl", "README"]);
    let claimed = names(&["a", "b"]);
    assert_eq!(resolve_infra_session(Some(&listing), &claimed, false), InfraSession::Absent);
}

#[test]
fn a_missing_directory_is_an_absence() {
    assert_eq!(resolve_infra_session(None, &vec![], false), InfraSession::Absent);
}

#[test]
fn a_shared_directory_is_ambiguous_whatever_it_lists() {
    let listing = names(&["manager.jsonl"]);
    assert_eq!(resolve_infra_session(Some(&listing), &vec![], true), InfraSession::Ambiguous);
    assert_eq!(resolve_infra_session(None, &vec![], true), InfraSession::Ambiguous);
}

#[test]
fn only_a_jsonl_extension_names_a_session() {
    assert_eq!(session_stem_of("abc.jsonl"), Some("abc".to_string()));
    assert_eq!(session_stem_of("a.b.jsonl"), Some("a.b".to_string()));
    assert_eq!(session_stem_of(".jsonl"), None);
    assert_eq!(session_stem_of("abc.json"), None);
    assert_eq!(session_stem_of("abcjsonl"), None);
}

#[test]
fn each_absence_says_why() {
    assert_eq!(
        absence_reason(&InfraSession::Ambiguous),
        Some("ambiguous session identity in a directory shared with a Node")
    );
    assert_eq!(
        absence_reason(&InfraSession::Absent),
        Some("no attributable session for this infrastructure role")
    );
    assert_eq!(absence_reason(&InfraSession::One("m".to_string())), None);
}
