use pdo_daemon::clock::{Duration, Timestamp};
use pdo_daemon::session::{
    manager_session_name, node_session_name, parse_session_name, shell_session_name,
    LIBASSIST_SESSION_NAME,
};
use pdo_daemon::sweep::{
    decide_sweep, tally_sweep, KillReason, NodeRunInfo, SweepDecision, SweepInput, SweepTally,
    SweepTtls, SweepVerdict,
};

const RID: &str = "20260731-153057-553fcb3";

fn at(iso: &str) -> Timestamp {
    let t = chrono::DateTime::parse_from_rfc3339(iso)
        .unwrap()
        .with_timezone(&chrono::Utc);
    Timestamp {
        secs: t.timestamp(),
        nanos: t.timestamp_subsec_nanos(),
    }
}

fn input(session_name: &str, info: Option<NodeRunInfo>) -> SweepInput {
    SweepInput {
        session_name: session_name.to_string(),
        parsed: parse_session_name(session_name),
        info,
        attached: false,
        focus_age: None,
    }
}

fn live() -> Option<NodeRunInfo> {
    Some(NodeRunInfo {
        completed_at: None,
        is_archived: false,
    })
}

fn ttls() -> SweepTtls {
    SweepTtls {
        node_run: Duration::from_secs(3600),
        libassist_idle: Duration::from_secs(120),
    }
}

fn verdict(inputs: &[SweepInput], now: Timestamp) -> SweepVerdict {
    let decisions = decide_sweep(inputs, ttls(), now);
    assert_eq!(decisions.len(), inputs.len(), "one decision per input");
    decisions[0].verdict.clone()
}

fn libassist_input(attached: bool, focus_age: Option<Duration>) -> SweepInput {
    SweepInput {
        session_name: LIBASSIST_SESSION_NAME.to_string(),
        parsed: parse_session_name(LIBASSIST_SESSION_NAME),
        info: None,
        attached,
        focus_age,
    }
}

#[test]
fn young_session_of_a_live_node_survives() {
    let name = node_session_name(RID, "alpha", 1);
    assert_eq!(
        verdict(&[input(&name, live())], at("2026-07-31T15:32:19Z")),
        SweepVerdict::Keep
    );
}

#[test]
fn genuinely_absent_node_is_still_killed() {
    let name = node_session_name(RID, "alpha", 1);
    assert_eq!(
        verdict(&[input(&name, None)], at("2026-07-31T15:32:19Z")),
        SweepVerdict::Kill(KillReason::NodeRunAbsent {
            run_id: RID.into(),
            node_id: "alpha".into(),
        })
    );
}

#[test]
fn archived_run_is_killed_on_every_arm() {
    let archived = || {
        Some(NodeRunInfo {
            completed_at: None,
            is_archived: true,
        })
    };
    let now = at("2026-07-31T15:32:19Z");

    let node = node_session_name(RID, "alpha", 1);
    assert_eq!(
        verdict(&[input(&node, archived())], now),
        SweepVerdict::Kill(KillReason::NodeRunArchived {
            run_id: RID.into(),
            node_id: "alpha".into(),
        })
    );
    assert_eq!(
        verdict(&[input(&manager_session_name(RID), archived())], now),
        SweepVerdict::Kill(KillReason::ManagerRunArchived { run_id: RID.into() })
    );
    assert_eq!(
        verdict(&[input(&shell_session_name(RID), archived())], now),
        SweepVerdict::Kill(KillReason::ShellRunArchived { run_id: RID.into() })
    );
}

#[test]
fn absent_run_is_killed_on_manager_and_shell_arms_too() {
    let now = at("2026-07-31T15:32:19Z");
    assert_eq!(
        verdict(&[input(&manager_session_name(RID), None)], now),
        SweepVerdict::Kill(KillReason::ManagerRunAbsent { run_id: RID.into() })
    );
    assert_eq!(
        verdict(&[input(&shell_session_name(RID), None)], now),
        SweepVerdict::Kill(KillReason::ShellRunAbsent { run_id: RID.into() })
    );
}

#[test]
fn library_assistant_is_kept_while_someone_is_there() {
    let now = at("2026-07-31T15:32:19Z");
    let ttl = ttls().libassist_idle;

    assert_eq!(
        verdict(
            &[libassist_input(true, Some(Duration::from_secs(ttl.as_secs() + 60)))],
            now
        ),
        SweepVerdict::Keep,
        "an attached terminal is never yanked"
    );
    assert_eq!(
        verdict(&[libassist_input(true, None)], now),
        SweepVerdict::Keep
    );
    assert_eq!(
        verdict(
            &[libassist_input(false, Some(Duration::from_secs(ttl.as_secs() - 1)))],
            now
        ),
        SweepVerdict::Keep,
        "a fresh focus keeps the session even with no terminal attached"
    );
}

#[test]
fn library_assistant_is_killed_once_nobody_is_there() {
    let now = at("2026-07-31T15:32:19Z");
    let ttl = ttls().libassist_idle;

    assert_eq!(
        verdict(
            &[libassist_input(false, Some(Duration::from_secs(ttl.as_secs() + 1)))],
            now
        ),
        SweepVerdict::Kill(KillReason::LibAssistIdle {
            session_name: LIBASSIST_SESSION_NAME.into(),
            idle_secs: Some(121),
        })
    );
    assert_eq!(
        verdict(&[libassist_input(false, None)], now),
        SweepVerdict::Kill(KillReason::LibAssistIdle {
            session_name: LIBASSIST_SESSION_NAME.into(),
            idle_secs: None,
        })
    );
}

#[test]
fn libassist_idle_boundary_is_strict() {
    let now = at("2026-07-31T15:32:19Z");
    assert_eq!(
        verdict(&[libassist_input(false, Some(ttls().libassist_idle))], now),
        SweepVerdict::Kill(KillReason::LibAssistIdle {
            session_name: LIBASSIST_SESSION_NAME.into(),
            idle_secs: Some(120),
        })
    );
}

#[test]
fn libassist_idle_is_not_an_absence_verdict() {
    assert!(!KillReason::LibAssistIdle {
        session_name: LIBASSIST_SESSION_NAME.into(),
        idle_secs: Some(300),
    }
    .is_absence());
}

#[test]
fn unrecognised_name_is_killed_without_a_lookup() {
    let decisions = decide_sweep(
        &[SweepInput {
            session_name: "pdo-ceci-nest-pas-un-nom".into(),
            parsed: None,
            info: live(),
            attached: true,
            focus_age: Some(Duration::zero()),
        }],
        ttls(),
        at("2026-07-31T15:32:19Z"),
    );
    assert_eq!(
        decisions[0].verdict,
        SweepVerdict::Kill(KillReason::UnrecognisedName {
            session_name: "pdo-ceci-nest-pas-un-nom".into(),
        })
    );
}

#[test]
fn ttl_boundary_is_strict() {
    let name = node_session_name(RID, "alpha", 1);
    let completed = at("2026-07-31T12:00:00Z");
    let done = |completed| {
        Some(NodeRunInfo {
            completed_at: Some(completed),
            is_archived: false,
        })
    };

    assert_eq!(
        verdict(&[input(&name, done(completed))], at("2026-07-31T13:00:00Z")),
        SweepVerdict::Keep
    );
    assert_eq!(
        verdict(&[input(&name, done(completed))], at("2026-07-31T13:00:01Z")),
        SweepVerdict::Kill(KillReason::NodeRunStale {
            session_name: name.clone(),
            age_secs: 3601,
        })
    );
}

#[test]
fn ttl_out_of_chrono_range_falls_back_to_one_hour() {
    let name = node_session_name(RID, "alpha", 1);
    let info = Some(NodeRunInfo {
        completed_at: Some(at("2026-07-31T12:00:00Z")),
        is_archived: false,
    });
    let absurd = Duration::from_secs(u64::MAX);

    let ttls = SweepTtls {
        node_run: absurd,
        ..ttls()
    };

    let keep = decide_sweep(
        &[input(&name, info.clone())],
        ttls,
        at("2026-07-31T12:30:00Z"),
    );
    assert_eq!(keep[0].verdict, SweepVerdict::Keep);

    let kill = decide_sweep(&[input(&name, info)], ttls, at("2026-07-31T14:00:00Z"));
    assert!(matches!(
        kill[0].verdict,
        SweepVerdict::Kill(KillReason::NodeRunStale { .. })
    ));
}

#[test]
fn manager_and_shell_have_no_ttl_arm() {
    let long_done = || {
        Some(NodeRunInfo {
            completed_at: Some(at("2020-01-01T00:00:00Z")),
            is_archived: false,
        })
    };
    let now = at("2026-07-31T15:32:19Z");

    assert_eq!(
        verdict(&[input(&manager_session_name(RID), long_done())], now),
        SweepVerdict::Keep
    );
    assert_eq!(
        verdict(&[input(&shell_session_name(RID), long_done())], now),
        SweepVerdict::Keep
    );
}

#[test]
fn kill_reason_messages_are_verbatim() {
    assert_eq!(
        KillReason::UnrecognisedName {
            session_name: "pdo-weird".into()
        }
        .message(),
        "Orphan sweep: killing unrecognised session pdo-weird"
    );
    assert_eq!(
        KillReason::ManagerRunAbsent { run_id: RID.into() }.message(),
        "Orphan sweep: killing manager session for absent run 20260731-153057-553fcb3"
    );
    assert_eq!(
        KillReason::ManagerRunArchived { run_id: RID.into() }.message(),
        "Orphan sweep: killing manager session for archived run 20260731-153057-553fcb3"
    );
    assert_eq!(
        KillReason::ShellRunAbsent { run_id: RID.into() }.message(),
        "Orphan sweep: killing shell session for absent run 20260731-153057-553fcb3"
    );
    assert_eq!(
        KillReason::ShellRunArchived { run_id: RID.into() }.message(),
        "Orphan sweep: killing shell session for archived run 20260731-153057-553fcb3"
    );
    assert_eq!(
        KillReason::NodeRunAbsent {
            run_id: RID.into(),
            node_id: "alpha".into()
        }
        .message(),
        "Orphan sweep: killing session for absent run 20260731-153057-553fcb3/alpha"
    );
    assert_eq!(
        KillReason::NodeRunArchived {
            run_id: RID.into(),
            node_id: "alpha".into()
        }
        .message(),
        "Orphan sweep: killing session for archived run 20260731-153057-553fcb3/alpha"
    );
    assert_eq!(
        KillReason::NodeRunStale {
            session_name: "pdo-20260731-153057-553fcb3-alpha-iter-1".into(),
            age_secs: 7200,
        }
        .message(),
        "Orphan sweep: killing stale session pdo-20260731-153057-553fcb3-alpha-iter-1 \
         (completed 7200s ago)"
    );
    assert_eq!(
        KillReason::LibAssistIdle {
            session_name: LIBASSIST_SESSION_NAME.into(),
            idle_secs: Some(300),
        }
        .message(),
        "Orphan sweep: killing idle library assistant pdo-libassist-shared \
         (no edit view for 300s)"
    );
    assert_eq!(
        KillReason::LibAssistIdle {
            session_name: LIBASSIST_SESSION_NAME.into(),
            idle_secs: None,
        }
        .message(),
        "Orphan sweep: killing idle library assistant pdo-libassist-shared \
         (no edit view ever declared)"
    );
}

#[test]
fn only_absence_verdicts_are_flagged_as_abnormal() {
    for reason in [
        KillReason::UnrecognisedName {
            session_name: "x".into(),
        },
        KillReason::ManagerRunAbsent { run_id: RID.into() },
        KillReason::ShellRunAbsent { run_id: RID.into() },
        KillReason::NodeRunAbsent {
            run_id: RID.into(),
            node_id: "alpha".into(),
        },
    ] {
        assert!(reason.is_absence(), "{} should be an absence verdict", reason.message());
    }
    for reason in [
        KillReason::ManagerRunArchived { run_id: RID.into() },
        KillReason::ShellRunArchived { run_id: RID.into() },
        KillReason::NodeRunArchived {
            run_id: RID.into(),
            node_id: "alpha".into(),
        },
        KillReason::NodeRunStale {
            session_name: "x".into(),
            age_secs: 1,
        },
        KillReason::LibAssistIdle {
            session_name: "x".into(),
            idle_secs: Some(1),
        },
    ] {
        assert!(!reason.is_absence(), "{} is routine housekeeping", reason.message());
    }
}

#[test]
fn decide_sweep_returns_one_decision_per_input_in_order() {
    let live_node = node_session_name(RID, "alpha", 1);
    let dead_node = node_session_name(RID, "beta", 1);
    let decisions = decide_sweep(
        &[
            input(&live_node, live()),
            input(&dead_node, None),
            input(&manager_session_name(RID), live()),
        ],
        ttls(),
        at("2026-07-31T15:32:19Z"),
    );

    assert_eq!(
        decisions
            .iter()
            .map(|d| d.session_name.as_str())
            .collect::<Vec<_>>(),
        vec![
            live_node.as_str(),
            dead_node.as_str(),
            &manager_session_name(RID)
        ]
    );
    assert_eq!(decisions[0].verdict, SweepVerdict::Keep);
    assert!(matches!(decisions[1].verdict, SweepVerdict::Kill(_)));
    assert_eq!(decisions[2].verdict, SweepVerdict::Keep);
}

#[test]
fn the_tally_counts_kills_and_absence_kills() {
    let decisions = vec![
        SweepDecision {
            session_name: "a".into(),
            verdict: SweepVerdict::Keep,
        },
        SweepDecision {
            session_name: "b".into(),
            verdict: SweepVerdict::Kill(KillReason::NodeRunAbsent {
                run_id: RID.into(),
                node_id: "b".into(),
            }),
        },
        SweepDecision {
            session_name: "c".into(),
            verdict: SweepVerdict::Kill(KillReason::ManagerRunArchived { run_id: RID.into() }),
        },
    ];
    assert_eq!(
        tally_sweep(&decisions),
        SweepTally {
            killed: 2,
            killed_for_absent_run: 1
        }
    );
    assert_eq!(tally_sweep(&[]), SweepTally::default());
}

#[test]
fn a_sub_second_age_is_compared_to_the_nanosecond() {
    let name = node_session_name(RID, "alpha", 1);
    let completed = Timestamp { secs: 1000, nanos: 500_000_000 };
    let info = Some(NodeRunInfo {
        completed_at: Some(completed),
        is_archived: false,
    });
    // Exactly one TTL later, to the nanosecond: kept.
    let now = Timestamp { secs: 4600, nanos: 500_000_000 };
    assert_eq!(verdict(&[input(&name, info)], now), SweepVerdict::Keep);
    // Half a second more: stale, and the age is reported in whole seconds.
    let now = Timestamp { secs: 4601, nanos: 0 };
    assert_eq!(
        verdict(&[input(&name, info)], now),
        SweepVerdict::Kill(KillReason::NodeRunStale {
            session_name: name.clone(),
            age_secs: 3600,
        })
    );
}
