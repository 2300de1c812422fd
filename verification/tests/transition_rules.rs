use pdo_daemon::json::JsonValue;
use pdo_daemon::transition_guard::{
    retry_run_precondition, spawn_superfluous, validate_transition, CollectionState, Event,
    EventKind, IterationState, NodeState, NodeStatus, RejectReason, RunState, RunStatus, Verdict,
};

/// A node of a projection: its status, its iteration, its iteration rows.
fn node(id: &str, status: NodeStatus, iter: i64, rows: &[(i64, NodeStatus)]) -> NodeState {
    NodeState {
        node_id: id.to_string(),
        status,
        iter,
        iterations: rows.iter().map(|&(iter, status)| IterationState { iter, status }).collect(),
    }
}

fn run(status: RunStatus, nodes: Vec<NodeState>) -> RunState {
    RunState { run_id: "run-1".to_string(), status, nodes, collection_states: vec![] }
}

/// A single-member region `worker` over `total` items, still open.
fn with_collection(mut state: RunState, total: i64) -> RunState {
    state.collection_states.push(CollectionState {
        entry: "worker".to_string(),
        members: vec!["worker".to_string()],
        total_items: total,
        done: false,
    });
    state
}

fn ev(kind: EventKind, node_id: Option<&str>, iter: Option<i64>) -> Event {
    Event { kind, node_id: node_id.map(String::from), iter, payload: None }
}

fn running(id: &str, iter: i64) -> NodeState {
    node(id, NodeStatus::Running, iter, &[(iter, NodeStatus::Running)])
}

fn completed(id: &str, iter: i64) -> NodeState {
    node(id, NodeStatus::Completed, iter, &[(iter, NodeStatus::Completed)])
}

fn assert_reject(verdict: Verdict, expected_fragment: &str) {
    match verdict {
        Verdict::Reject { reason } => {
            let rendered = reason.message();
            assert!(
                rendered.contains(expected_fragment),
                "reject reason {rendered:?} should mention {expected_fragment:?}"
            );
        }
        other => panic!("expected Reject, got {other:?}"),
    }
}

fn assert_noop(verdict: Verdict) {
    match verdict {
        Verdict::NoOp { reason } => assert!(reason.ends_with(" ignored"), "{reason}"),
        other => panic!("a duplicate must be dropped silently, not {other:?}"),
    }
}

#[test]
fn duplicate_completion_of_completed_iteration_is_noop() {
    let state = run(RunStatus::Running, vec![completed("worker", 1)]);
    let verdict =
        validate_transition(Some(&state), &ev(EventKind::NodeCompleted, Some("worker"), Some(1)));
    assert_eq!(
        verdict,
        Verdict::NoOp {
            reason: "node worker iter 1 is already completed: duplicate completion ignored"
                .to_string()
        }
    );
}

#[test]
fn completion_of_running_iteration_is_allowed() {
    let state = run(RunStatus::Running, vec![running("worker", 1)]);
    let verdict =
        validate_transition(Some(&state), &ev(EventKind::NodeCompleted, Some("worker"), Some(1)));
    assert_eq!(verdict, Verdict::Allow);
}

#[test]
fn completion_of_never_started_iteration_is_rejected() {
    let state = run(RunStatus::Running, vec![]);
    let verdict =
        validate_transition(Some(&state), &ev(EventKind::NodeCompleted, Some("ghost"), Some(1)));
    assert_reject(verdict, "never started");
}

#[test]
fn skip_completion_of_never_started_iteration_is_allowed() {
    let state = run(RunStatus::Running, vec![]);
    let mut skip = ev(EventKind::NodeCompleted, Some("orphan"), Some(1));
    skip.payload =
        Some(JsonValue::Object(vec![("skipped".to_string(), JsonValue::Bool(true))]));
    assert_eq!(validate_transition(Some(&state), &skip), Verdict::Allow);
    let mut not_skip = ev(EventKind::NodeCompleted, Some("orphan"), Some(1));
    not_skip.payload =
        Some(JsonValue::Object(vec![("skipped".to_string(), JsonValue::Bool(false))]));
    assert_reject(validate_transition(Some(&state), &not_skip), "never started");
}

#[test]
fn skip_completion_of_an_already_completed_iteration_still_noops() {
    let state = run(RunStatus::Running, vec![completed("orphan", 1)]);
    let mut done = ev(EventKind::NodeCompleted, Some("orphan"), Some(1));
    done.payload = Some(JsonValue::Object(vec![("skipped".to_string(), JsonValue::Bool(true))]));
    assert_noop(validate_transition(Some(&state), &done));
}

#[test]
fn completion_on_completed_run_is_rejected() {
    let state = run(RunStatus::Completed, vec![completed("worker", 1)]);
    let verdict =
        validate_transition(Some(&state), &ev(EventKind::NodeCompleted, Some("worker"), Some(1)));
    assert_reject(verdict, "resume the run");
}

#[test]
fn restart_of_failed_iteration_is_allowed() {
    let state =
        run(RunStatus::Running, vec![node("worker", NodeStatus::Failed, 1, &[(1, NodeStatus::Failed)])]);
    let verdict =
        validate_transition(Some(&state), &ev(EventKind::NodeStarted, Some("worker"), Some(1)));
    assert_eq!(verdict, Verdict::Allow);
}

#[test]
fn fail_on_running_iteration_is_allowed() {
    let state = run(RunStatus::Running, vec![running("worker", 1)]);
    let verdict =
        validate_transition(Some(&state), &ev(EventKind::NodeFailed, Some("worker"), Some(1)));
    assert_eq!(verdict, Verdict::Allow);
}

#[test]
fn interrupt_on_running_iteration_is_allowed() {
    let state = run(RunStatus::Running, vec![running("worker", 1)]);
    assert_eq!(
        validate_transition(Some(&state), &ev(EventKind::NodeInterrupted, Some("worker"), Some(1))),
        Verdict::Allow
    );
}

#[test]
fn retry_precondition_allows_a_completed_node_on_a_live_run() {
    let state = run(RunStatus::Running, vec![completed("worker", 1)]);
    assert!(retry_run_precondition(&state, "worker", 2).is_none());
}

#[test]
fn completion_of_unstarted_higher_iteration_is_rejected() {
    let state = run(RunStatus::Running, vec![running("worker", 1)]);
    let verdict =
        validate_transition(Some(&state), &ev(EventKind::NodeCompleted, Some("worker"), Some(2)));
    assert_reject(verdict, "never started");
}

#[test]
fn completion_on_failed_run_is_rejected() {
    let state = run(RunStatus::Failed, vec![running("worker", 1)]);
    let verdict =
        validate_transition(Some(&state), &ev(EventKind::NodeCompleted, Some("worker"), Some(1)));
    assert_reject(verdict, "resume the run");
}

#[test]
fn completion_of_failed_iteration_is_allowed() {
    let state =
        run(RunStatus::Running, vec![node("worker", NodeStatus::Failed, 1, &[(1, NodeStatus::Failed)])]);
    let verdict =
        validate_transition(Some(&state), &ev(EventKind::NodeCompleted, Some("worker"), Some(1)));
    assert_eq!(verdict, Verdict::Allow);
}

#[test]
fn auto_completion_follows_completion_rules() {
    let state = run(RunStatus::Running, vec![completed("worker", 1)]);
    let verdict = validate_transition(
        Some(&state),
        &ev(EventKind::NodeAutoCompleted, Some("worker"), Some(1)),
    );
    assert_noop(verdict);
}

#[test]
fn start_while_another_iteration_is_live_is_rejected() {
    let state = run(RunStatus::Running, vec![running("worker", 2)]);
    let verdict =
        validate_transition(Some(&state), &ev(EventKind::NodeStarted, Some("worker"), Some(3)));
    assert_reject(verdict, "still live");
}

#[test]
fn restart_of_the_live_iteration_is_allowed() {
    let state = run(RunStatus::Running, vec![running("worker", 2)]);
    let verdict =
        validate_transition(Some(&state), &ev(EventKind::NodeStarted, Some("worker"), Some(2)));
    assert_eq!(verdict, Verdict::Allow);
}

#[test]
fn restart_of_older_iter_while_newer_is_live_is_rejected() {
    let state = run(
        RunStatus::Running,
        vec![node(
            "griller",
            NodeStatus::Running,
            2,
            &[(1, NodeStatus::Completed), (2, NodeStatus::Running)],
        )],
    );
    let verdict =
        validate_transition(Some(&state), &ev(EventKind::NodeStarted, Some("griller"), Some(1)));
    assert_reject(verdict, "still live");
}

#[test]
fn start_of_already_completed_iteration_is_rejected() {
    let state = run(RunStatus::Running, vec![completed("worker", 1)]);
    let verdict =
        validate_transition(Some(&state), &ev(EventKind::NodeStarted, Some("worker"), Some(1)));
    assert_reject(verdict, "already completed");
}

#[test]
fn start_on_failed_run_is_rejected() {
    let state = run(RunStatus::Failed, vec![]);
    let verdict =
        validate_transition(Some(&state), &ev(EventKind::NodeStarted, Some("worker"), Some(1)));
    assert_reject(verdict, "non-running run");
}

#[test]
fn start_on_completed_run_is_rejected() {
    let state = run(RunStatus::Completed, vec![completed("worker", 1)]);
    let verdict =
        validate_transition(Some(&state), &ev(EventKind::NodeStarted, Some("worker"), Some(2)));
    assert_reject(verdict, "non-running run");
}

#[test]
fn start_of_fresh_node_is_allowed() {
    let state = run(RunStatus::Running, vec![]);
    let verdict =
        validate_transition(Some(&state), &ev(EventKind::NodeStarted, Some("worker"), Some(1)));
    assert_eq!(verdict, Verdict::Allow);
}

#[test]
fn start_of_next_iter_after_completed_iter_is_allowed() {
    let state = run(RunStatus::Running, vec![completed("worker", 1)]);
    let verdict =
        validate_transition(Some(&state), &ev(EventKind::NodeStarted, Some("worker"), Some(2)));
    assert_eq!(verdict, Verdict::Allow);
}

#[test]
fn promotion_of_waiting_node_at_same_iter_is_allowed() {
    let state = run(RunStatus::Running, vec![node("worker", NodeStatus::Waiting, 1, &[])]);
    let verdict =
        validate_transition(Some(&state), &ev(EventKind::NodeStarted, Some("worker"), Some(1)));
    assert_eq!(verdict, Verdict::Allow);
}

#[test]
fn start_of_other_iter_while_node_is_waiting_is_rejected() {
    let state = run(RunStatus::Running, vec![node("worker", NodeStatus::Waiting, 1, &[])]);
    let verdict =
        validate_transition(Some(&state), &ev(EventKind::NodeStarted, Some("worker"), Some(2)));
    assert_reject(verdict, "still live");
}

#[test]
fn stale_on_completed_iteration_is_noop() {
    let state = run(RunStatus::Running, vec![completed("worker", 1)]);
    let verdict =
        validate_transition(Some(&state), &ev(EventKind::NodeStale, Some("worker"), Some(1)));
    assert_eq!(
        verdict,
        Verdict::NoOp {
            reason: "node worker iter 1 is already terminal: stale marker ignored".to_string()
        }
    );
}

#[test]
fn stale_on_running_iteration_is_allowed() {
    let state = run(RunStatus::Running, vec![running("worker", 1)]);
    let verdict =
        validate_transition(Some(&state), &ev(EventKind::NodeStale, Some("worker"), Some(1)));
    assert_eq!(verdict, Verdict::Allow);
}

#[test]
fn fail_on_completed_iteration_is_noop() {
    let state = run(RunStatus::Running, vec![completed("worker", 1)]);
    let verdict =
        validate_transition(Some(&state), &ev(EventKind::NodeFailed, Some("worker"), Some(1)));
    assert_noop(verdict);
}

#[test]
fn fail_on_never_started_iteration_is_noop() {
    let state = run(RunStatus::Running, vec![]);
    let verdict =
        validate_transition(Some(&state), &ev(EventKind::NodeFailed, Some("ghost"), Some(1)));
    assert_eq!(
        verdict,
        Verdict::NoOp {
            reason: "node ghost iter 1 has no started iteration: failure ignored".to_string()
        }
    );
}

#[test]
fn interrupt_on_never_started_iteration_is_allowed() {
    let state = run(RunStatus::Failed, vec![]);
    assert_eq!(
        validate_transition(Some(&state), &ev(EventKind::NodeInterrupted, Some("ghost"), Some(1))),
        Verdict::Allow
    );
}

#[test]
fn reinterrupt_of_an_interrupted_node_is_noop() {
    let state = run(RunStatus::Running, vec![node("w", NodeStatus::Interrupted, 1, &[])]);
    assert_eq!(
        validate_transition(Some(&state), &ev(EventKind::NodeInterrupted, Some("w"), Some(1))),
        Verdict::NoOp { reason: "node w is already interrupted: interrupt ignored".to_string() }
    );
}

#[test]
fn interrupt_on_completed_iteration_is_noop() {
    let state = run(RunStatus::Running, vec![completed("worker", 1)]);
    assert_noop(validate_transition(
        Some(&state),
        &ev(EventKind::NodeInterrupted, Some("worker"), Some(1)),
    ));
}

#[test]
fn spawn_proposal_for_running_node_is_superfluous_at_any_iter() {
    let state = run(RunStatus::Running, vec![running("b", 1)]);
    assert_eq!(
        spawn_superfluous(&state, "b", 1),
        Some("node b iter 1 is live: scheduler will not spawn iter 1".to_string())
    );
    assert!(spawn_superfluous(&state, "b", 2).is_some());
}

#[test]
fn spawn_proposal_for_completed_iteration_is_superfluous() {
    let state = run(RunStatus::Running, vec![completed("b", 1)]);
    assert_eq!(
        spawn_superfluous(&state, "b", 1),
        Some("node b iter 1 already completed: nothing to spawn".to_string())
    );
    assert!(spawn_superfluous(&state, "b", 2).is_none());
}

#[test]
fn spawn_proposal_for_fresh_or_failed_node_is_not_superfluous() {
    let state =
        run(RunStatus::Running, vec![node("f", NodeStatus::Failed, 1, &[(1, NodeStatus::Failed)])]);
    assert!(spawn_superfluous(&state, "never-ran", 1).is_none());
    assert!(spawn_superfluous(&state, "f", 1).is_none());
}

#[test]
fn spawn_proposal_for_waiting_node_is_superfluous() {
    let state = run(RunStatus::Running, vec![node("w", NodeStatus::Waiting, 1, &[])]);
    assert!(spawn_superfluous(&state, "w", 1).is_some());
}

#[test]
fn sibling_item_laps_of_an_open_collection_region_may_run_concurrently() {
    let state = with_collection(run(RunStatus::Running, vec![running("worker", 1)]), 3);
    for iter in [2, 3] {
        assert_eq!(
            validate_transition(Some(&state), &ev(EventKind::NodeStarted, Some("worker"), Some(iter))),
            Verdict::Allow,
            "lap {iter} of a 3-item region must start alongside lap 1"
        );
    }
    assert_reject(
        validate_transition(Some(&state), &ev(EventKind::NodeStarted, Some("worker"), Some(4))),
        "still live",
    );
}

#[test]
fn a_completed_item_lap_is_never_re_run() {
    let state = with_collection(
        run(
            RunStatus::Running,
            vec![node(
                "worker",
                NodeStatus::Running,
                2,
                &[(1, NodeStatus::Completed), (2, NodeStatus::Running)],
            )],
        ),
        2,
    );
    assert_reject(
        validate_transition(Some(&state), &ev(EventKind::NodeStarted, Some("worker"), Some(1))),
        "already completed",
    );
}

#[test]
fn a_node_outside_the_region_keeps_the_concurrency_refusal() {
    let state = with_collection(run(RunStatus::Running, vec![running("outsider", 1)]), 3);
    assert_reject(
        validate_transition(Some(&state), &ev(EventKind::NodeStarted, Some("outsider"), Some(2))),
        "still live",
    );
}

#[test]
fn spawn_proposal_for_a_sibling_item_lap_is_not_superfluous() {
    let state = with_collection(run(RunStatus::Running, vec![running("worker", 1)]), 2);
    assert!(spawn_superfluous(&state, "worker", 2).is_none());
    assert!(spawn_superfluous(&state, "worker", 1).is_some());
    assert!(spawn_superfluous(&state, "worker", 3).is_some());
}

#[test]
fn retry_precondition_refuses_a_terminal_run_with_resume_prose() {
    let state = run(RunStatus::Failed, vec![running("worker", 1)]);
    let reason = retry_run_precondition(&state, "worker", 2).expect("a Failed run must refuse a retry");
    assert!(matches!(reason, RejectReason::RunNotLive { .. }));
    assert_eq!(
        reason.message(),
        "run run-1 is Failed: no scheduling on a non-running run \u{2014} resume the run first"
    );
}

#[test]
fn retry_precondition_allows_a_running_node_on_a_live_run() {
    let state = run(RunStatus::Running, vec![running("worker", 1)]);
    assert!(retry_run_precondition(&state, "worker", 2).is_none());
}

#[test]
fn retry_precondition_refuses_a_paused_run() {
    let state = run(RunStatus::Paused, vec![running("worker", 1)]);
    assert!(retry_run_precondition(&state, "worker", 2).is_some());
}

#[test]
fn non_lifecycle_kinds_are_always_allowed() {
    let state = run(RunStatus::Failed, vec![]);
    for kind in [
        EventKind::CommandIssued,
        EventKind::RunResumed,
        EventKind::NodeStopped,
        EventKind::RunCompleted,
    ] {
        let verdict = validate_transition(Some(&state), &ev(kind, Some("worker"), Some(1)));
        assert_eq!(verdict, Verdict::Allow);
    }
}

#[test]
fn missing_state_is_allowed() {
    let verdict = validate_transition(None, &ev(EventKind::NodeStarted, Some("worker"), Some(1)));
    assert_eq!(verdict, Verdict::Allow);
}

#[test]
fn a_lifecycle_event_without_node_is_rejected() {
    let state = run(RunStatus::Running, vec![]);
    assert_eq!(
        validate_transition(Some(&state), &ev(EventKind::NodeWaiting, None, Some(1))),
        Verdict::Reject { reason: RejectReason::MissingNodeId { kind: EventKind::NodeWaiting } }
    );
}

#[test]
fn an_absent_iter_defaults_to_one() {
    let state = run(RunStatus::Running, vec![completed("worker", 1)]);
    assert_reject(
        validate_transition(Some(&state), &ev(EventKind::NodeStarted, Some("worker"), None)),
        "node worker iter 1 already completed",
    );
}

#[test]
fn each_refusal_carries_its_typed_reject_reason() {
    let state = run(RunStatus::Running, vec![running("worker", 2)]);
    assert!(matches!(
        validate_transition(Some(&state), &ev(EventKind::NodeStarted, Some("worker"), Some(3))),
        Verdict::Reject { reason: RejectReason::ConcurrentIterationLive { live_iter: 2, iter: 3, .. } }
    ));
    let state = run(RunStatus::Running, vec![node(
        "worker",
        NodeStatus::Stopped,
        1,
        &[(1, NodeStatus::Stopped)],
    )]);
    assert!(matches!(
        validate_transition(Some(&state), &ev(EventKind::NodeCompleted, Some("worker"), Some(1))),
        Verdict::Reject {
            reason: RejectReason::IterationNotCompletable { status: NodeStatus::Stopped, .. }
        }
    ));
}

fn every_reject_reason() -> Vec<RejectReason> {
    vec![
        RejectReason::MissingNodeId { kind: EventKind::NodeCompleted },
        RejectReason::RunNotLive {
            run_id: "run-1".into(),
            status: RunStatus::Failed,
            node_id: "worker".into(),
            iter: 1,
            kind: EventKind::NodeCompleted,
        },
        RejectReason::ConcurrentIterationLive { node_id: "worker".into(), live_iter: 2, iter: 3 },
        RejectReason::IterationAlreadyCompleted { node_id: "worker".into(), iter: 1 },
        RejectReason::IterationNotCompletable {
            node_id: "worker".into(),
            iter: 1,
            status: NodeStatus::Stopped,
        },
        RejectReason::IterationNeverStarted { node_id: "worker".into(), iter: 1 },
    ]
}

#[test]
fn every_reject_reason_display_is_byte_identical_to_pre_515_prose() {
    let cases: Vec<(RejectReason, &str)> = vec![
        (
            RejectReason::ConcurrentIterationLive { node_id: "worker".into(), live_iter: 2, iter: 3 },
            "node worker iter 2 is still live: refusing concurrent iter 3",
        ),
        (
            RejectReason::RunNotLive {
                run_id: "run-1".into(),
                status: RunStatus::Failed,
                node_id: "worker".into(),
                iter: 1,
                kind: EventKind::NodeCompleted,
            },
            "run run-1 is Failed: cannot complete node worker iter 1 \u{2014} resume the run first",
        ),
        (
            RejectReason::RunNotLive {
                run_id: "run-1".into(),
                status: RunStatus::Failed,
                node_id: "worker".into(),
                iter: 1,
                kind: EventKind::NodeStarted,
            },
            "run run-1 is Failed: no scheduling on a non-running run \u{2014} resume the run first",
        ),
        (
            RejectReason::IterationNotCompletable {
                node_id: "worker".into(),
                iter: 1,
                status: NodeStatus::Stopped,
            },
            "node worker iter 1 is Stopped: cannot complete",
        ),
        (
            RejectReason::IterationNeverStarted { node_id: "worker".into(), iter: 1 },
            "node worker iter 1 was never started (no node_started event): cannot complete",
        ),
        (
            RejectReason::IterationAlreadyCompleted { node_id: "worker".into(), iter: 1 },
            "node worker iter 1 already completed: refusing to re-run it",
        ),
        (
            RejectReason::MissingNodeId { kind: EventKind::NodeCompleted },
            "completion event without node_id",
        ),
        (RejectReason::MissingNodeId { kind: EventKind::NodeStarted }, "start event without node_id"),
        (RejectReason::MissingNodeId { kind: EventKind::NodeFailed }, "fail event without node_id"),
        (RejectReason::MissingNodeId { kind: EventKind::NodeStale }, "stale event without node_id"),
    ];
    for (reason, want) in cases {
        assert_eq!(reason.message(), want);
    }
    assert_eq!(every_reject_reason().len(), 6);
}
