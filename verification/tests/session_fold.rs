use pdo_daemon::json::JsonValue;
use pdo_daemon::session_tally::{
    counted_executions, distinct_sorted, execution_harness, overview_buckets, session_execution, session_stats,
    tally_of, BucketCount, SessionRow,
};
use pdo_daemon::stats::StatsSessionHarness;

fn text(s: &str) -> JsonValue {
    JsonValue::String(s.to_string())
}

fn object(members: Vec<(&str, JsonValue)>) -> JsonValue {
    JsonValue::Object(members.into_iter().map(|(k, v)| (k.to_string(), v)).collect())
}

fn run_payload(pipeline_id: &str, pipeline_name: &str, defs: Vec<(&str, &str, &str)>) -> JsonValue {
    let defs = defs
        .into_iter()
        .map(|(id, name, node_type)| object(vec![("id", text(id)), ("name", text(name)), ("node_type", text(node_type))]))
        .collect();
    object(vec![
        ("pipeline_id", text(pipeline_id)),
        ("pipeline_name", text(pipeline_name)),
        ("node_defs", JsonValue::Array(defs)),
    ])
}

fn row(bucket: &str, run_id: &str, run: &JsonValue, node_id: Option<&str>, harness: Option<&str>, identity: &str) -> SessionRow {
    let event = match harness {
        Some(h) => object(vec![("harness", text(h))]),
        None => JsonValue::Null,
    };
    SessionRow {
        bucket: bucket.to_string(),
        run_id: run_id.to_string(),
        run_payload: clone_json(run),
        node_id: node_id.map(|n| n.to_string()),
        event_payload: event,
        identity: identity.to_string(),
    }
}

fn clone_json(v: &JsonValue) -> JsonValue {
    match v {
        JsonValue::Null => JsonValue::Null,
        JsonValue::Bool(b) => JsonValue::Bool(*b),
        JsonValue::Number(n) => JsonValue::Number(n.clone()),
        JsonValue::String(s) => JsonValue::String(s.clone()),
        JsonValue::Array(items) => JsonValue::Array(items.iter().map(clone_json).collect()),
        JsonValue::Object(members) => {
            JsonValue::Object(members.iter().map(|(k, v)| (k.clone(), clone_json(v))).collect())
        }
    }
}

fn harness_row(harness: &str, executions: u64) -> StatsSessionHarness {
    StatsSessionHarness { harness: harness.to_string(), executions }
}

fn strings(v: &[&str]) -> Vec<String> {
    v.iter().map(|s| s.to_string()).collect()
}

#[test]
fn tally_counts_each_key_in_key_order() {
    let c = tally_of(&strings(&["codex", "agent", "codex", "codex"]));
    assert_eq!(c.total, 4);
    assert_eq!(c.by_harness, vec![("agent".to_string(), 1), ("codex".to_string(), 3)]);
    assert_eq!(distinct_sorted(&strings(&["b", "a", "b", "c"])), strings(&["a", "b", "c"]));
    assert!(distinct_sorted(&Vec::new()).is_empty());
}

#[test]
fn the_harness_falls_back_to_the_default_when_missing_or_empty() {
    assert_eq!(execution_harness(&object(vec![("harness", text("codex"))]), "agent"), "codex");
    assert_eq!(execution_harness(&object(vec![("harness", text(""))]), "agent"), "agent");
    assert_eq!(execution_harness(&JsonValue::Null, "agent"), "agent");
}

#[test]
fn a_row_without_a_node_or_of_a_script_node_is_no_execution() {
    let run = run_payload("p1", "Pipeline one", vec![("n1", "Plan", "agent"), ("s1", "Build", "script")]);
    assert!(session_execution(&row("2026-07-01", "r1", &run, None, None, "a"), "agent").is_none());
    assert!(session_execution(&row("2026-07-01", "r1", &run, Some("s1"), None, "a"), "agent").is_none());
    let mut typed = row("2026-07-01", "r1", &run, Some("n1"), None, "a");
    typed.event_payload = object(vec![("node_type", text("script"))]);
    assert!(session_execution(&typed, "agent").is_none());

    let e = session_execution(&row("2026-07-01", "r1", &run, Some("n1"), Some("codex"), "a"), "agent").unwrap();
    assert_eq!(e.pipeline_id, "p1");
    assert_eq!(e.pipeline_name, "Pipeline one");
    assert_eq!(e.node_name, "Plan");
    assert_eq!(e.harness, "codex");
}

#[test]
fn an_unknown_pipeline_and_an_undefined_node_keep_their_fallback_names() {
    let e = session_execution(&row("2026-07-01", "r1", &JsonValue::Null, Some("n9"), None, "a"), "agent").unwrap();
    assert_eq!(e.pipeline_id, "(unknown)");
    assert_eq!(e.pipeline_name, "(unknown)");
    assert_eq!(e.node_name, "n9");
    assert_eq!(e.harness, "agent");
}

#[test]
fn a_repeated_execution_is_counted_once() {
    let run = run_payload("p1", "P", vec![("n1", "Plan", "agent")]);
    let rows = vec![
        row("2026-07-01", "r1", &run, Some("n1"), None, "same"),
        row("2026-07-01", "r1", &run, Some("n1"), None, "same"),
        row("2026-07-01", "r2", &run, Some("n1"), None, "same"),
        row("2026-07-01", "r1", &run, Some("n1"), None, "other"),
    ];
    let kept = counted_executions(&rows, "agent");
    assert_eq!(kept.len(), 3);
    assert_eq!(kept[0].run_id, "r1");
    assert_eq!(kept[1].run_id, "r2");
    assert_eq!(kept[2].identity, "other");
}

#[test]
fn the_session_fold_tallies_periods_harnesses_pipelines_and_nodes() {
    let p1 = run_payload("p1", "Alpha", vec![("plan", "Plan", "agent"), ("build", "Build", "script"), ("review", "Review", "agent")]);
    let p2 = run_payload("p2", "Beta", vec![("fix", "Fix", "agent")]);
    let rows = vec![
        row("2026-07-01", "r1", &p1, Some("plan"), Some("codex"), "e1"),
        row("2026-07-01", "r1", &p1, Some("build"), None, "e2"),
        row("2026-07-01", "r1", &p1, Some("review"), None, "e3"),
        row("2026-07-01", "r1", &p1, Some("review"), None, "e3"),
        row("2026-07-02", "r2", &p2, Some("fix"), None, "e1"),
        row("2026-07-02", "r3", &p1, Some("plan"), None, "e1"),
    ];
    let stats = session_stats(&rows, "agent");

    assert_eq!(
        stats.sessions,
        vec![
            BucketCount { bucket: "2026-07-01".to_string(), count: 2 },
            BucketCount { bucket: "2026-07-02".to_string(), count: 2 },
        ]
    );
    assert_eq!(stats.harnesses, strings(&["agent", "codex"]));
    assert_eq!(stats.periods.len(), 2);
    assert_eq!(stats.periods[0].bucket, "2026-07-01");
    assert_eq!(stats.periods[0].harnesses, vec![harness_row("agent", 1), harness_row("codex", 1)]);
    assert_eq!(stats.periods[1].bucket, "2026-07-02");
    assert_eq!(stats.periods[1].harnesses, vec![harness_row("agent", 2)]);

    assert_eq!(stats.pipelines.len(), 2);
    let alpha = &stats.pipelines[0];
    assert_eq!(alpha.id, "p1");
    assert_eq!(alpha.name, "Alpha");
    assert_eq!(alpha.executions, 3);
    assert_eq!(alpha.harnesses, vec![harness_row("agent", 2), harness_row("codex", 1)]);
    assert_eq!(alpha.by_period.len(), 2);
    assert_eq!(alpha.nodes.len(), 2);
    assert_eq!(alpha.nodes[0].id, "plan");
    assert_eq!(alpha.nodes[0].name, "Plan");
    assert_eq!(alpha.nodes[0].executions, 2);
    assert_eq!(alpha.nodes[1].id, "review");
    assert_eq!(alpha.nodes[1].executions, 1);
    let beta = &stats.pipelines[1];
    assert_eq!(beta.id, "p2");
    assert_eq!(beta.name, "Beta");
    assert_eq!(beta.executions, 1);
    assert_eq!(beta.nodes.len(), 1);
    assert_eq!(beta.nodes[0].name, "Fix");
}

#[test]
fn pipelines_with_equal_executions_rank_by_id() {
    let a = run_payload("b-pipe", "B", vec![]);
    let b = run_payload("a-pipe", "A", vec![]);
    let rows = vec![
        row("2026-07-01", "r1", &a, Some("n"), None, "1"),
        row("2026-07-01", "r2", &b, Some("n"), None, "1"),
    ];
    let stats = session_stats(&rows, "agent");
    assert_eq!(stats.pipelines[0].id, "a-pipe");
    assert_eq!(stats.pipelines[1].id, "b-pipe");
}

#[test]
fn an_empty_cohort_folds_to_nothing() {
    let stats = session_stats(&Vec::new(), "agent");
    assert!(stats.sessions.is_empty());
    assert!(stats.periods.is_empty());
    assert!(stats.harnesses.is_empty());
    assert!(stats.pipelines.is_empty());
}

#[test]
fn overview_buckets_are_the_sorted_union_of_the_series() {
    let bc = |b: &str, n: i64| BucketCount { bucket: b.to_string(), count: n };
    let runs = vec![bc("2026-07-02", 1), bc("2026-07-01", 3)];
    let errors = vec![bc("2026-07-03", 1)];
    let sessions = vec![bc("2026-07-01", 5)];
    assert_eq!(overview_buckets(&runs, &errors, &sessions), strings(&["2026-07-01", "2026-07-02", "2026-07-03"]));
}
