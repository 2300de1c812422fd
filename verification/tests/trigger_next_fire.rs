use pdo_daemon::trigger_scheduler::{recompute_next_fire, Transition};

/// The instant an RFC 3339 text names, in seconds since the epoch.
fn at(s: &str) -> i64 {
    chrono::DateTime::parse_from_rfc3339(s).unwrap().timestamp()
}

/// The first slot of the daily `0 9 * * *` cron after 2026-06-06T10:00:30Z:
/// the next morning, today's 09:00 having passed.
fn next_nine() -> Option<String> {
    Some("2026-06-07T09:00:00.000Z".to_string())
}

#[test]
fn create_recomputes_forward() {
    let now = at("2026-06-06T10:00:30.000Z");
    let out = recompute_next_fire(Transition::Create, next_nine());
    assert_eq!(out, Some(Some("2026-06-07T09:00:00.000Z".to_string())));
    let fwd = out.flatten().unwrap();
    assert!(at(&fwd) > now, "create must recompute strictly forward");
}

#[test]
fn cron_edit_recomputes_forward() {
    let out = recompute_next_fire(Transition::CronEdit, next_nine());
    assert_eq!(out, Some(Some("2026-06-07T09:00:00.000Z".to_string())));
}

#[test]
fn repoint_recomputes_forward() {
    let out = recompute_next_fire(Transition::Repoint, next_nine());
    assert_eq!(out, Some(Some("2026-06-07T09:00:00.000Z".to_string())));
}

#[test]
fn enable_recomputes_forward_no_catchup() {
    let now = at("2026-06-06T10:00:30.000Z");
    let out = recompute_next_fire(Transition::Enable, next_nine());
    let fwd = out.expect("advance").expect("a future slot");
    assert!(fwd.ends_with('Z'), "canonical UTC, got {fwd}");
    assert!(at(&fwd) > now, "enable must recompute strictly forward");
    assert_eq!(fwd, "2026-06-07T09:00:00.000Z");
}

#[test]
fn cron_tick_recomputes_forward() {
    let out = recompute_next_fire(Transition::CronTick, next_nine());
    assert_eq!(out, Some(Some("2026-06-07T09:00:00.000Z".to_string())));
}

/// `0 0 30 2 *` parses but yields no slot: every advancing arm clears.
#[test]
fn advance_on_impossible_cron_clears() {
    assert_eq!(recompute_next_fire(Transition::Create, None), Some(None));
    assert_eq!(recompute_next_fire(Transition::Enable, None), Some(None));
}

#[test]
fn manual_fire_leaves_next_fire_intact() {
    assert_eq!(recompute_next_fire(Transition::ManualFire, None), None);
}

#[test]
fn dangling_clears_next_fire() {
    assert_eq!(recompute_next_fire(Transition::Dangling, None), Some(None));
}

#[test]
fn a_manual_fire_ignores_the_slot_it_is_handed() {
    assert_eq!(recompute_next_fire(Transition::ManualFire, next_nine()), None);
}

#[test]
fn a_dangling_reference_clears_even_with_a_slot() {
    assert_eq!(recompute_next_fire(Transition::Dangling, next_nine()), Some(None));
}
