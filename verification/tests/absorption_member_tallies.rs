use pdo_daemon::absorption::{couple_scope, AbsorptionResolver, Named, COUPLE, EFFORT, MODEL, NODE, ORIGIN_MANUAL, PIPELINE};
use pdo_daemon::absorption_store::combine_scoped;
use pdo_daemon::absorption_tallies::{provenance, PipelineTallies, StatsProvenance};
use pdo_daemon::json::JsonValue;

const NOW: &str = "2026-09-24T00:00:00Z";

fn named(key: &str) -> Named {
    Named { key: key.to_string(), name: key.to_string() }
}

fn run_of(pipeline: &str) -> JsonValue {
    JsonValue::Object(vec![
        ("pipeline_id".to_string(), JsonValue::String(pipeline.to_string())),
        ("pipeline_name".to_string(), JsonValue::String(pipeline.to_string())),
    ])
}

#[test]
fn provenance_says_where_the_identity_was_read_from() {
    assert_eq!(provenance(3, 0), StatsProvenance::Observed);
    assert_eq!(provenance(0, 2), StatsProvenance::Requested);
    assert_eq!(provenance(1, 1), StatsProvenance::Mixed);
}

#[test]
fn a_model_absorption_lists_its_member_with_its_tally() {
    let mut rows = Vec::new();
    combine_scoped(&mut rows, MODEL, "", "", &named("model-large-4"), &[named("large")], ORIGIN_MANUAL, NOW);
    let resolver = AbsorptionResolver::from_rows(&rows);
    let identity = resolver.run_identity(&run_of("p"));
    assert_eq!(identity.model("large"), "model-large-4");
    assert_eq!(identity.model("model-small-5"), "model-small-5");
    assert_eq!(identity.pipeline_key, "p", "the Pipeline axis is not touched");

    let mut tallies = PipelineTallies::new();
    tallies.record_run_as("large", "r1", "2026-09-24T00:00:00Z");
    tallies.record_provenance_as("large", false);
    let members = resolver.absorbed_models("model-large-4", &tallies);
    assert_eq!(members.len(), 1);
    assert_eq!(members[0].key, "large");
    assert_eq!(members[0].runs, 1);
    assert_eq!(members[0].executions, None);
    assert_eq!(members[0].provenance, Some(StatsProvenance::Requested));
}

#[test]
fn runs_are_counted_once_across_keys_and_the_latest_start_wins() {
    let mut tallies = PipelineTallies::counting_executions();
    assert_eq!(tallies.runs(), 0);
    assert_eq!(tallies.last_run(), None);
    tallies.record_run_as("b", "r1", "2026-09-02T00:00:00Z");
    tallies.record_run_as("a", "r1", "2026-09-01T00:00:00Z");
    tallies.record_run_as("a", "r2", "2026-09-03T00:00:00Z");
    tallies.record_run_as("a", "r2", "2026-09-03T00:00:00Z");
    tallies.record_execution_as("a");
    tallies.record_execution_as("a");
    assert_eq!(tallies.runs(), 2);
    assert_eq!(tallies.last_run().as_deref(), Some("2026-09-03T00:00:00Z"));
    assert_eq!(tallies.keys(), vec!["a".to_string(), "b".to_string()]);
    let a = tallies.member(&named("a"));
    assert_eq!(a.runs, 2);
    assert_eq!(a.executions, Some(2));
    assert_eq!(a.last_run.as_deref(), Some("2026-09-03T00:00:00Z"));
    assert_eq!(a.provenance, None);
    let absent = tallies.member(&named("zzz"));
    assert_eq!(absent.runs, 0);
    assert_eq!(absent.executions, Some(0));
    assert_eq!(absent.last_run, None);
}

#[test]
fn global_members_are_named_model_dot_effort() {
    let mut tallies = PipelineTallies::new();
    tallies.record_run_as("m5|high", "r1", "2026-09-01T00:00:00Z");
    tallies.record_run_as("m5|", "r2", "2026-09-02T00:00:00Z");
    tallies.record_run_as("plain", "r3", "2026-09-03T00:00:00Z");
    let members = tallies.global_members();
    let names: Vec<&str> = members.iter().map(|m| m.name.as_str()).collect();
    assert_eq!(names, vec!["m5 \u{b7} not set", "m5 \u{b7} high", "plain"]);
}

#[test]
fn absorbed_pipelines_and_nodes_list_every_member() {
    let mut rows = Vec::new();
    combine_scoped(&mut rows, PIPELINE, "", "", &named("p"), &[named("q"), named("r")], ORIGIN_MANUAL, NOW);
    combine_scoped(&mut rows, NODE, "p", "P", &named("impl"), &[named("coder")], ORIGIN_MANUAL, NOW);
    let resolver = AbsorptionResolver::from_rows(&rows);
    let mut tallies = PipelineTallies::new();
    tallies.record_run_as("q", "r9", "2026-09-01T00:00:00Z");
    let pipelines = resolver.absorbed("p", &tallies);
    let keys: Vec<(&str, u64)> = pipelines.iter().map(|m| (m.key.as_str(), m.runs)).collect();
    assert_eq!(keys, vec![("q", 1), ("r", 0)]);
    let nodes = resolver.absorbed_nodes("p", "impl", &tallies);
    assert_eq!(nodes.len(), 1);
    assert_eq!(nodes[0].key, "coder");
    assert!(resolver.absorbed_nodes("other", "impl", &tallies).is_empty());
}

#[test]
fn effort_members_list_the_raw_models_that_hold_them() {
    let mut rows = Vec::new();
    combine_scoped(&mut rows, EFFORT, "m5", "m5", &named("high"), &[named(""), named("low")], ORIGIN_MANUAL, NOW);
    combine_scoped(&mut rows, EFFORT, "m55", "m55", &named("high"), &[named("")], ORIGIN_MANUAL, NOW);
    let resolver = AbsorptionResolver::from_rows(&rows);
    let mut tallies = PipelineTallies::new();
    tallies.record_run_as("", "r1", "2026-09-01T00:00:00Z");
    let raw = vec!["m55".to_string(), "m5".to_string(), "m9".to_string()];
    let members = resolver.absorbed_efforts(&raw, "high", &tallies);
    assert_eq!(members.len(), 2);
    assert_eq!(members[0].key, "");
    assert_eq!(members[0].name, "not set");
    assert_eq!(members[0].runs, 1);
    assert_eq!(members[0].scopes, vec!["m55".to_string(), "m5".to_string()]);
    assert_eq!(members[1].key, "low");
    assert_eq!(members[1].name, "low");
    assert_eq!(members[1].scopes, vec!["m5".to_string()]);
}

#[test]
fn couple_members_list_the_raw_scopes_that_hold_them() {
    let one = couple_scope("p", "coder");
    let two = couple_scope("q", "coder");
    let mut rows = Vec::new();
    combine_scoped(&mut rows, COUPLE, &one, "", &named("m5|high"), &[named("m48|")], ORIGIN_MANUAL, NOW);
    combine_scoped(&mut rows, COUPLE, &two, "", &named("m5|high"), &[named("m48|"), named("m7|low")], ORIGIN_MANUAL, NOW);
    let resolver = AbsorptionResolver::from_rows(&rows);
    let mut tallies = PipelineTallies::counting_executions();
    tallies.record_run_as("m48|", "r1", "2026-09-01T00:00:00Z");
    tallies.record_execution_as("m48|");
    let members = resolver.absorbed_couples(&vec![two.clone(), one.clone()], "m5|high", &tallies);
    assert_eq!(members.len(), 2);
    assert_eq!(members[0].key, "m48|");
    assert_eq!(members[0].runs, 1);
    assert_eq!(members[0].executions, Some(1));
    assert_eq!(members[0].scopes, vec![two.clone(), one.clone()]);
    assert_eq!(members[1].key, "m7|low");
    assert_eq!(members[1].runs, 0);
    assert_eq!(members[1].scopes, vec![two]);
    assert!(resolver.absorbed_couples(&vec![one], "m7|low", &tallies).is_empty());
}
