use pdo_daemon::absorption::{
    group, AbsorptionResolver, AbsorptionRow, Named, NODE, ORIGIN_MANUAL, ORIGIN_RENAME, PIPELINE,
};
use pdo_daemon::absorption_store::{
    combine_rows, combine_scoped, record_rename_rows, release_nodes_rows, remove_member_rows,
};
use pdo_daemon::json::JsonValue;

const NOW: &str = "2026-09-24T00:00:00Z";

fn named(key: &str) -> Named {
    Named { key: key.to_string(), name: key.to_uppercase() }
}

fn combine_manual(rows: &mut Vec<AbsorptionRow>, absorbent: &str, members: &[&str]) {
    let members: Vec<Named> = members.iter().map(|m| named(m)).collect();
    combine_scoped(rows, PIPELINE, "", "", &named(absorbent), &members, ORIGIN_MANUAL, NOW);
}

fn combine_nodes(rows: &mut Vec<AbsorptionRow>, scope: &str, absorbent: &str, members: &[&str]) {
    let members: Vec<Named> = members.iter().map(|m| named(m)).collect();
    combine_scoped(rows, NODE, scope, &scope.to_uppercase(), &named(absorbent), &members, ORIGIN_MANUAL, NOW);
}

fn rename(rows: &mut Vec<AbsorptionRow>, old: &str, new: &str) {
    record_rename_rows(rows, &named(old), &named(new), NOW);
}

/// member → absorbent of every Pipeline row, sorted.
fn edges(rows: &[AbsorptionRow]) -> Vec<(String, String)> {
    let mut e: Vec<(String, String)> = rows
        .iter()
        .filter(|r| r.dimension == PIPELINE)
        .map(|r| (r.member.clone(), r.absorbent.clone()))
        .collect();
    e.sort();
    e
}

fn edge(member: &str, absorbent: &str) -> (String, String) {
    (member.to_string(), absorbent.to_string())
}

/// (scope, member → absorbent) of every Node row, sorted.
fn node_edges(rows: &[AbsorptionRow]) -> Vec<(String, String, String)> {
    let mut e: Vec<(String, String, String)> = rows
        .iter()
        .filter(|r| r.dimension == NODE)
        .map(|r| (r.scope.clone(), r.member.clone(), r.absorbent.clone()))
        .collect();
    e.sort();
    e
}

fn node_edge(scope: &str, member: &str, absorbent: &str) -> (String, String, String) {
    (scope.to_string(), member.to_string(), absorbent.to_string())
}

fn run_of(pipeline: &str) -> JsonValue {
    JsonValue::Object(vec![
        ("pipeline_id".to_string(), JsonValue::String(pipeline.to_string())),
        ("pipeline_name".to_string(), JsonValue::String(pipeline.to_string())),
    ])
}

#[test]
fn absorbing_an_absorbent_moves_its_members_and_stays_one_level() {
    let mut rows = Vec::new();
    combine_manual(&mut rows, "b", &["a"]);
    combine_manual(&mut rows, "c", &["b"]);
    assert_eq!(edges(&rows), vec![edge("a", "c"), edge("b", "c")]);
    let resolver = AbsorptionResolver::from_rows(&rows);
    assert_eq!(resolver.pipeline("a"), "c");
    assert_eq!(resolver.pipeline("b"), "c");
    assert_eq!(resolver.pipeline("c"), "c");
}

#[test]
fn a_member_has_exactly_one_absorbent() {
    let mut rows = Vec::new();
    combine_manual(&mut rows, "b", &["a"]);
    combine_manual(&mut rows, "c", &["a"]);
    assert_eq!(edges(&rows), vec![edge("a", "c")]);
}

#[test]
fn choosing_a_member_as_the_absorbent_takes_it_out_first() {
    let mut rows = Vec::new();
    combine_manual(&mut rows, "b", &["a", "x"]);
    combine_manual(&mut rows, "a", &["b"]);
    assert_eq!(edges(&rows), vec![edge("b", "a"), edge("x", "a")]);
}

#[test]
fn two_absorbents_merge_under_the_one_chosen() {
    let mut rows = Vec::new();
    combine_manual(&mut rows, "b", &["a"]);
    combine_manual(&mut rows, "d", &["c"]);
    combine_manual(&mut rows, "d", &["b"]);
    assert_eq!(edges(&rows), vec![edge("a", "d"), edge("b", "d"), edge("c", "d")]);
    let list = group(rows);
    assert_eq!(list.absorptions.len(), 1);
    assert_eq!(list.absorptions[0].absorbent, named("d"));
}

#[test]
fn a_rename_chain_ends_as_one_absorbent_with_every_old_key() {
    let mut rows = Vec::new();
    rename(&mut rows, "a", "b");
    rename(&mut rows, "b", "c");
    assert_eq!(edges(&rows), vec![edge("a", "c"), edge("b", "c")]);
    assert!(rows.iter().all(|row| row.origin == ORIGIN_RENAME));
    assert!(rows.iter().all(|row| row.absorbent_name == "C"));
}

#[test]
fn renaming_back_swaps_the_absorbent() {
    let mut rows = Vec::new();
    rename(&mut rows, "a", "b");
    rename(&mut rows, "b", "a");
    assert_eq!(edges(&rows), vec![edge("b", "a")]);
}

#[test]
fn renaming_to_the_same_key_changes_nothing() {
    let mut rows = Vec::new();
    combine_manual(&mut rows, "b", &["a"]);
    rename(&mut rows, "b", "b");
    assert_eq!(edges(&rows), vec![edge("a", "b")]);
}

#[test]
fn renaming_an_absorbed_pipeline_joins_its_absorbent() {
    let mut rows = Vec::new();
    combine_manual(&mut rows, "keeper", &["old"]);
    rename(&mut rows, "old", "new");
    assert_eq!(edges(&rows), vec![edge("new", "keeper"), edge("old", "keeper")]);
    let origins: Vec<(String, String)> =
        rows.iter().map(|row| (row.member.clone(), row.origin.clone())).collect();
    assert!(origins.contains(&("old".to_string(), ORIGIN_MANUAL.to_string())));
    assert!(origins.contains(&("new".to_string(), ORIGIN_RENAME.to_string())));
}

#[test]
fn renaming_a_manual_absorbent_keeps_its_members_manual() {
    let mut rows = Vec::new();
    combine_manual(&mut rows, "b", &["a"]);
    rename(&mut rows, "b", "c");
    let origin = |member: &str| {
        rows.iter().find(|row| row.member == member).map(|row| row.origin.clone()).unwrap()
    };
    assert_eq!(edges(&rows), vec![edge("a", "c"), edge("b", "c")]);
    assert_eq!(origin("a"), ORIGIN_MANUAL);
    assert_eq!(origin("b"), ORIGIN_RENAME);
}

#[test]
fn removing_the_last_member_removes_the_absorption() {
    let mut rows = Vec::new();
    combine_manual(&mut rows, "b", &["a"]);
    assert_eq!(remove_member_rows(&mut rows, PIPELINE, "", "a"), Some("b".to_string()));
    assert!(rows.is_empty());
    assert_eq!(remove_member_rows(&mut rows, PIPELINE, "", "a"), None);
}

#[test]
fn a_node_absorption_applies_to_the_runs_of_its_pipeline_row_only() {
    let mut rows = Vec::new();
    combine_manual(&mut rows, "b", &["a"]);
    combine_nodes(&mut rows, "b", "code-review", &["review"]);
    let resolver = AbsorptionResolver::from_rows(&rows);
    let node = resolver.run_identity(&run_of("a")).node("review");
    assert_eq!(node.key, "code-review");
    assert_eq!(node.raw_key, "review");
    assert_eq!(node.name, "CODE-REVIEW", "the absorbent's stored name");
    assert!(!node.own_name);
    assert_eq!(resolver.run_identity(&run_of("b")).node("review").key, "code-review");
    assert_eq!(resolver.run_identity(&run_of("c")).node("review").key, "review");
    let own = resolver.run_identity(&run_of("b")).node("code-review");
    assert!(own.own_name);
}

#[test]
fn a_pipeline_taken_out_takes_its_nodes_out_of_the_node_absorption() {
    // `review` only ever ran under A; `code-review` under B; `shared` under both.
    let mut rows = Vec::new();
    combine_manual(&mut rows, "b", &["a"]);
    combine_nodes(&mut rows, "b", "code-review", &["review"]);
    combine_nodes(&mut rows, "b", "shared-new", &["shared"]);
    let absorbent = remove_member_rows(&mut rows, PIPELINE, "", "a").unwrap();
    assert_eq!(absorbent, "b");
    let gone = vec!["review".to_string(), "shared".to_string()];
    let staying = vec!["code-review".to_string(), "shared".to_string()];
    release_nodes_rows(&mut rows, &absorbent, &gone, &staying);
    assert_eq!(
        node_edges(&rows),
        vec![node_edge("b", "shared", "shared-new")],
        "`shared` still runs under B: its absorption stays"
    );
    let resolver = AbsorptionResolver::from_rows(&rows);
    assert_eq!(resolver.run_identity(&run_of("b")).node("shared").key, "shared-new");
    assert_eq!(resolver.run_identity(&run_of("a")).node("review").key, "review");
}

#[test]
fn a_node_absorbent_that_only_ran_under_the_removed_pipeline_dissolves() {
    let mut rows = Vec::new();
    combine_manual(&mut rows, "b", &["a"]);
    combine_nodes(&mut rows, "b", "writer-v2", &["writer"]);
    let absorbent = remove_member_rows(&mut rows, PIPELINE, "", "a").unwrap();
    release_nodes_rows(&mut rows, &absorbent, &vec!["writer-v2".to_string()], &vec!["writer".to_string()]);
    assert!(node_edges(&rows).is_empty());
}

#[test]
fn combining_pipelines_carries_the_members_node_absorptions_over() {
    let mut rows = Vec::new();
    combine_nodes(&mut rows, "a", "y", &["x"]);
    combine_nodes(&mut rows, "b", "z", &["y"]);
    combine_manual(&mut rows, "b", &["a"]);
    assert_eq!(node_edges(&rows), vec![node_edge("b", "x", "z"), node_edge("b", "y", "z")]);
    assert!(rows.iter().filter(|row| row.dimension == NODE).all(|row| row.scope_name == "B"));
}

#[test]
fn a_rename_keeps_the_node_absorptions_of_the_pipeline() {
    let mut rows = Vec::new();
    combine_nodes(&mut rows, "old", "code-review", &["review"]);
    rename(&mut rows, "old", "new");
    assert_eq!(node_edges(&rows), vec![node_edge("new", "review", "code-review")]);
}

#[test]
fn a_combine_outside_pipelines_carries_nothing() {
    let mut rows = Vec::new();
    combine_nodes(&mut rows, "a", "y", &["x"]);
    let members = vec![named("m1"), named("m2")];
    combine_rows(&mut rows, "model", "", "", &named("m"), &members, ORIGIN_MANUAL, NOW);
    assert_eq!(node_edges(&rows), vec![node_edge("a", "x", "y")]);
    let models: Vec<(&str, &str)> = rows
        .iter()
        .filter(|r| r.dimension == "model")
        .map(|r| (r.member.as_str(), r.absorbent.as_str()))
        .collect();
    assert_eq!(models, vec![("m1", "m"), ("m2", "m")]);
}
