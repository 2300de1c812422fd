use pdo_daemon::json::JsonValue;
use pdo_daemon::performance_walk::{
    node_defs_from_payload, run_observations, LoggedEvent, Observation, PendingAttempt, PerfNodeDef,
};
use pdo_daemon::transition_guard::EventKind;

fn text(s: &str) -> JsonValue {
    JsonValue::String(s.to_string())
}

fn object(members: Vec<(&str, JsonValue)>) -> JsonValue {
    JsonValue::Object(members.into_iter().map(|(k, v)| (k.to_string(), v)).collect())
}

fn ev(kind: EventKind, node: Option<&str>, iter: Option<i64>, ts: &str) -> LoggedEvent {
    LoggedEvent { kind, node_id: node.map(String::from), iter, ts: ts.to_string(), payload: None }
}

fn started(node: &str, iter: i64, ts: &str, payload: Vec<(&str, JsonValue)>) -> LoggedEvent {
    let mut e = ev(EventKind::NodeStarted, Some(node), Some(iter), ts);
    e.payload = Some(object(payload));
    e
}

fn defs() -> Vec<(String, PerfNodeDef)> {
    node_defs_from_payload(&object(vec![(
        "node_defs",
        JsonValue::Array(vec![
            object(vec![("id", text("plan")), ("name", text("Plan")), ("node_type", text("agent"))]),
            object(vec![("id", text("build")), ("node_type", text("script"))]),
            object(vec![
                ("id", text("review")),
                ("name", text("Review")),
                ("node_type", text("agent")),
                ("isolated_worktree", JsonValue::Bool(false)),
            ]),
        ]),
    )]))
}

#[test]
fn node_defs_read_names_types_and_isolation_defaults() {
    let d = defs();
    assert_eq!(d.len(), 3);
    assert_eq!(d[0].0, "plan");
    assert_eq!(d[0].1, PerfNodeDef { name: "Plan".to_string(), node_type: "agent".to_string(), isolated: true });
    assert_eq!(d[1].1, PerfNodeDef { name: "build".to_string(), node_type: "script".to_string(), isolated: false });
    assert_eq!(d[2].1, PerfNodeDef { name: "Review".to_string(), node_type: "agent".to_string(), isolated: false });
    let merge = node_defs_from_payload(&object(vec![(
        "node_defs",
        JsonValue::Array(vec![object(vec![("id", text("m")), ("node_type", text("merge"))]), object(vec![("name", text("no id"))])]),
    )]));
    assert_eq!(merge.len(), 1);
    assert!(merge[0].1.isolated);
    assert!(node_defs_from_payload(&JsonValue::Null).is_empty());
}

#[test]
fn a_completed_attempt_is_observed_with_what_its_start_froze() {
    let events = vec![
        ev(EventKind::RunStarted, None, None, "t0"),
        started("plan", 1, "t1", vec![("session_id", text("s-1")), ("model", text("m-large")), ("effort", text(""))]),
        ev(EventKind::NodeCompleted, Some("plan"), Some(1), "t2"),
    ];
    let obs = run_observations(&events, &defs(), "primary");
    assert_eq!(
        obs,
        vec![Observation::Node {
            node_id: "plan".to_string(),
            iter: 1,
            node_name: "Plan".to_string(),
            completed_at: "t2".to_string(),
            attempt: PendingAttempt {
                started_at: "t1".to_string(),
                harness: "primary".to_string(),
                session_id: Some("s-1".to_string()),
                isolated: true,
                requested_model: Some("m-large".to_string()),
                requested_effort: None,
            },
        }]
    );
}

#[test]
fn a_stopped_attempt_and_a_script_node_are_never_observed() {
    let events = vec![
        started("plan", 1, "t1", vec![]),
        ev(EventKind::NodeStopped, Some("plan"), Some(1), "t2"),
        ev(EventKind::NodeCompleted, Some("plan"), Some(1), "t3"),
        started("build", 1, "t4", vec![]),
        ev(EventKind::NodeCompleted, Some("build"), Some(1), "t5"),
    ];
    assert!(run_observations(&events, &defs(), "primary").is_empty());
}

#[test]
fn loop_laps_are_distinct_observations() {
    let events = vec![
        started("plan", 1, "t1", vec![]),
        ev(EventKind::NodeCompleted, Some("plan"), Some(1), "t2"),
        started("plan", 2, "t3", vec![("harness", text("other"))]),
        ev(EventKind::NodeAutoCompleted, Some("plan"), Some(2), "t4"),
        ev(EventKind::NodeCompleted, Some("plan"), Some(2), "t5"),
    ];
    let obs = run_observations(&events, &defs(), "primary");
    assert_eq!(obs.len(), 2);
    match &obs[1] {
        Observation::Node { iter, attempt, completed_at, .. } => {
            assert_eq!(*iter, 2);
            assert_eq!(attempt.harness, "other");
            assert_eq!(completed_at, "t4");
        }
        other => panic!("expected a node observation, got {other:?}"),
    }
}

#[test]
fn the_manager_is_observed_only_for_a_completed_run() {
    let events = vec![
        ev(EventKind::RunStarted, None, None, "t0"),
        started("plan", 1, "t1", vec![("session_id", text("s-1"))]),
        started("review", 1, "t2", vec![]),
        started("build", 1, "t3", vec![]),
        ev(EventKind::RunCompleted, None, None, "t9"),
    ];
    let obs = run_observations(&events, &defs(), "primary");
    assert_eq!(
        obs,
        vec![Observation::Manager {
            started_at: "t0".to_string(),
            completed_at: "t9".to_string(),
            excluded: vec!["s-1".to_string()],
            ambiguous: true,
        }]
    );

    let failed = vec![
        ev(EventKind::RunStarted, None, None, "t0"),
        ev(EventKind::RunFailed, None, None, "t1"),
        ev(EventKind::RunCompleted, None, None, "t2"),
    ];
    assert!(run_observations(&failed, &defs(), "primary").is_empty());
}

#[test]
fn a_merge_resolver_pairs_with_its_completion_and_excludes_the_conflicting_sessions() {
    let mut resolver = ev(EventKind::MergeResolverStarted, None, None, "t5");
    resolver.payload = Some(object(vec![
        ("conflicting_node_id", text("plan")),
        ("iter", JsonValue::Number("1".to_string())),
    ]));
    let events = vec![
        started("plan", 1, "t1", vec![("session_id", text("s-a"))]),
        ev(EventKind::NodeFailed, Some("plan"), Some(1), "t2"),
        started("plan", 1, "t3", vec![("session_id", text("s-b"))]),
        started("plan", 2, "t4", vec![("session_id", text("s-c"))]),
        resolver,
        ev(EventKind::MergeResolverCompleted, None, None, "t6"),
        ev(EventKind::MergeResolverCompleted, None, None, "t7"),
    ];
    let obs = run_observations(&events, &defs(), "primary");
    assert_eq!(
        obs,
        vec![Observation::Resolver {
            started_at: "t5".to_string(),
            completed_at: "t6".to_string(),
            conflict: Some(("plan".to_string(), 1)),
            excluded: vec!["s-a".to_string(), "s-b".to_string()],
            ambiguous: false,
        }]
    );
}

#[test]
fn a_failed_merge_resolver_is_never_observed() {
    let events = vec![
        ev(EventKind::MergeResolverStarted, None, None, "t1"),
        ev(EventKind::MergeResolverFailed, None, None, "t2"),
        ev(EventKind::MergeResolverCompleted, None, None, "t3"),
    ];
    assert!(run_observations(&events, &defs(), "primary").is_empty());
    let unnamed = vec![
        ev(EventKind::MergeResolverStarted, None, None, "t1"),
        ev(EventKind::MergeResolverCompleted, None, None, "t2"),
    ];
    assert_eq!(
        run_observations(&unnamed, &defs(), "primary"),
        vec![Observation::Resolver {
            started_at: "t1".to_string(),
            completed_at: "t2".to_string(),
            conflict: None,
            excluded: vec![],
            ambiguous: false,
        }]
    );
}
