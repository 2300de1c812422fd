use pdo_daemon::clock::Timestamp;
use pdo_daemon::trigger_scheduler::{
    invalid_cron_plan, is_due, max_concurrent_of, overlap_policy_of, plan_with, record_for,
    FireDecision, FireSource, OverlapPolicy, SkipReason,
};

/// 2026-06-06T10:00:30Z.
fn now() -> Timestamp {
    Timestamp { secs: 1_780_740_030, nanos: 0 }
}

#[test]
fn fire_sources_name_their_column_value() {
    assert_eq!(FireSource::Cron.as_str(), "cron");
    assert_eq!(FireSource::Manual.as_str(), "manual");
}

#[test]
fn a_past_next_fire_is_due_and_a_future_one_is_not() {
    assert!(is_due(Some("2026-06-06T10:00:00.000Z"), now(), FireSource::Cron));
    assert!(is_due(Some("2026-06-06T10:00:30Z"), now(), FireSource::Cron));
    assert!(is_due(Some("2026-06-06T12:00:00+02:00"), now(), FireSource::Cron));
    assert!(!is_due(Some("2026-06-06T10:00:30.001Z"), now(), FireSource::Cron));
    assert!(!is_due(Some("2999-01-01T00:00:00.000Z"), now(), FireSource::Cron));
}

#[test]
fn an_unreadable_or_missing_next_fire_is_never_due_on_cron() {
    assert!(!is_due(Some("not a time"), now(), FireSource::Cron));
    assert!(!is_due(None, now(), FireSource::Cron));
}

#[test]
fn manual_fire_is_due_even_when_next_fire_is_in_the_future() {
    assert!(is_due(Some("2999-01-01T00:00:00.000Z"), now(), FireSource::Manual));
    assert!(is_due(None, now(), FireSource::Manual));
}

#[test]
fn overlap_settings_read_allow_or_skip() {
    assert_eq!(overlap_policy_of("allow"), OverlapPolicy::Allow);
    assert_eq!(overlap_policy_of("skip"), OverlapPolicy::Skip);
    assert_eq!(overlap_policy_of("Allow"), OverlapPolicy::Skip);
    assert_eq!(max_concurrent_of(Some(3)), Some(3));
    assert_eq!(max_concurrent_of(Some(-4)), Some(0));
    assert_eq!(max_concurrent_of(None), None);
}

#[test]
fn cron_records_are_stamped_source_cron() {
    let rec = record_for(&FireDecision::Fire { input: "do it".to_string() }, FireSource::Cron).unwrap();
    assert_eq!(rec.outcome, "fired");
    assert_eq!(rec.source.as_deref(), Some("cron"));
    assert!(rec.reason.is_none() && rec.run_id.is_none());
}

#[test]
fn not_due_trigger_is_a_silent_noop_with_no_audit_row() {
    assert!(record_for(&FireDecision::Skip { reason: None }, FireSource::Cron).is_none());
}

#[test]
fn bounded_allow_skip_at_cap_records_skipped_overlap_with_count() {
    let decision = FireDecision::Skip {
        reason: Some(SkipReason::OverlapMaxConcurrentReached { live: 2, max: 2 }),
    };
    let rec = record_for(&decision, FireSource::Manual).unwrap();
    assert_eq!(rec.outcome, "skipped-overlap");
    assert_eq!(rec.reason.as_deref(), Some("max concurrent runs reached (2/2)"));
    assert_eq!(rec.source.as_deref(), Some("manual"));
}

#[test]
fn overlap_skip_records_the_previous_run() {
    let decision = FireDecision::Skip { reason: Some(SkipReason::OverlapPreviousRunLive) };
    let rec = record_for(&decision, FireSource::Cron).unwrap();
    assert_eq!(rec.outcome, "skipped-overlap");
    assert_eq!(rec.reason.as_deref(), Some("previous run still active"));
}

#[test]
fn guard_exit_nonzero_plan_carries_captured_output_onto_the_record() {
    let decision = FireDecision::Skip {
        reason: Some(SkipReason::GuardExitNonZero {
            stdout: "checked 0 issues".to_string(),
            stderr: "gh: no work to do".to_string(),
            exit_code: Some(7),
        }),
    };
    let plan = plan_with(decision, Some("2026-06-06T10:01:00.000Z".to_string()), FireSource::Cron);
    let record = plan.record.as_ref().unwrap();
    assert_eq!(record.outcome, "guard-exit-nonzero");
    assert_eq!(record.reason.as_deref(), Some("guard exited non-zero"));
    assert_eq!(record.guard_stdout.as_deref(), Some("checked 0 issues"));
    assert_eq!(record.guard_stderr.as_deref(), Some("gh: no work to do"));
    assert_eq!(record.guard_exit_code, Some(7));
    assert_eq!(plan.next_fire_at.as_deref(), Some("2026-06-06T10:01:00.000Z"));
    assert!(!plan.cron_invalid);
}

#[test]
fn guard_errors_and_refusals_carry_their_detail() {
    let rec = record_for(
        &FireDecision::Skip { reason: Some(SkipReason::GuardError { detail: "spawn failed".to_string() }) },
        FireSource::Cron,
    )
    .unwrap();
    assert_eq!((rec.outcome.as_str(), rec.reason.as_deref()), ("guard-error", Some("spawn failed")));
    let rec = record_for(&FireDecision::Reject { reason: "no pipeline".to_string() }, FireSource::Cron).unwrap();
    assert_eq!((rec.outcome.as_str(), rec.reason.as_deref()), ("error", Some("no pipeline")));
    assert!(rec.guard_stdout.is_none() && rec.guard_exit_code.is_none());
}

#[test]
fn invalid_cron_yields_error_outcome_and_stops_firing() {
    let plan = invalid_cron_plan("not a cron", FireSource::Cron);
    assert_eq!(plan.decision, FireDecision::Reject { reason: "invalid cron expression: not a cron".to_string() });
    assert_eq!(plan.record.as_ref().unwrap().outcome, "error");
    assert_eq!(
        plan.record.as_ref().unwrap().reason.as_deref(),
        Some("invalid cron expression: not a cron")
    );
    assert!(plan.next_fire_at.is_none());
    assert!(plan.cron_invalid);
}
