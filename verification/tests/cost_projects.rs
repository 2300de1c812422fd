use pdo_daemon::cost_project::{cost_project_root, file_name, project_identity, Project};
use pdo_daemon::json::JsonValue;

fn payload(pairs: &[(&str, &str)]) -> JsonValue {
    JsonValue::Object(
        pairs.iter().map(|(k, v)| (k.to_string(), JsonValue::String(v.to_string()))).collect(),
    )
}

#[test]
fn cost_project_root_uses_the_runs_target_repo() {
    let payload = payload(&[("target_repo", "/proj/A")]);
    assert_eq!(cost_project_root(&payload, "/daemon/root"), "/proj/A");
}

#[test]
fn cost_project_root_buckets_a_legacy_null_target_run_under_the_daemon_root() {
    let payload = payload(&[("pipeline_name", "alpha")]);
    assert_eq!(cost_project_root(&payload, "/daemon/root"), "/daemon/root");
}

#[test]
fn unnamed_project_uses_the_primary_repository_identity_and_readable_name() {
    let payload = payload(&[("target_repo", "/repos/product-api")]);
    assert_eq!(
        project_identity(&payload, "/daemon/root", &vec![]),
        ("/repos/product-api".to_string(), "product-api".to_string())
    );
}

#[test]
fn a_null_target_repo_is_no_root() {
    let payload = JsonValue::Object(vec![("target_repo".to_string(), JsonValue::Null)]);
    assert_eq!(cost_project_root(&payload, "/daemon/root"), "/daemon/root");
}

#[test]
fn a_declared_project_gathering_the_root_names_it() {
    let projects = vec![
        Project { id: "p1".to_string(), name: "Other".to_string(), members: vec!["/repos/x".to_string()] },
        Project {
            id: "p2".to_string(),
            name: "Product".to_string(),
            members: vec!["/repos/web".to_string(), "/repos/product-api".to_string()],
        },
        Project { id: "p3".to_string(), name: "Later".to_string(), members: vec!["/repos/product-api".to_string()] },
    ];
    let payload = payload(&[("target_repo", "/repos/product-api")]);
    assert_eq!(
        project_identity(&payload, "/daemon/root", &projects),
        ("p2".to_string(), "Product".to_string())
    );
}

#[test]
fn a_root_with_no_last_component_is_named_by_itself() {
    assert_eq!(
        project_identity(&payload(&[("target_repo", "/")]), "/d", &vec![]),
        ("/".to_string(), "/".to_string())
    );
    assert_eq!(
        project_identity(&payload(&[("target_repo", "/repos/..")]), "/d", &vec![]),
        ("/repos/..".to_string(), "/repos/..".to_string())
    );
}

#[test]
fn a_file_name_is_the_last_normal_component() {
    assert_eq!(file_name("/repos/product-api/"), Some("product-api".to_string()));
    assert_eq!(file_name("/repos/product-api/."), Some("product-api".to_string()));
    assert_eq!(file_name("repo"), Some("repo".to_string()));
    assert_eq!(file_name("/"), None);
    assert_eq!(file_name("."), None);
    assert_eq!(file_name(""), None);
    assert_eq!(file_name("a/.."), None);
}
