use pdo_daemon::json::JsonValue;
use pdo_daemon::trigger_edit::{is_empty, rollup_statement, trigger_id, update_statement, SetValue, UpdateTrigger};

fn no_edit() -> UpdateTrigger {
    UpdateTrigger {
        name: None,
        pipeline_id: None,
        pipeline_name: None,
        target_repo: None,
        source_branch: None,
        input_template: None,
        variables: None,
        cron: None,
        guard_command: None,
        overlap_policy: None,
        max_concurrent: None,
        next_fire_at: None,
    }
}

#[test]
fn an_edit_that_sets_nothing_is_a_no_op() {
    let edit = no_edit();
    assert!(is_empty(&edit));
    assert!(update_statement(&edit).is_none());
}

#[test]
fn each_set_field_gets_one_placeholder_bound_in_column_order() {
    let mut edit = no_edit();
    edit.next_fire_at = Some(Some("2026-06-06T10:00:00.000Z".to_string()));
    edit.name = Some("nightly".to_string());
    edit.max_concurrent = Some(None);
    edit.target_repo = Some(None);
    assert!(!is_empty(&edit));
    let (sql, binds) = update_statement(&edit).expect("a non-empty edit");
    assert_eq!(
        sql,
        "UPDATE triggers SET name = ?, target_repo = ?, max_concurrent = ?, next_fire_at = ? WHERE id = ?"
    );
    assert_eq!(
        binds,
        vec![
            SetValue::Text("nightly"),
            SetValue::NullableText(None),
            SetValue::NullableInt(None),
            SetValue::NullableText(Some("2026-06-06T10:00:00.000Z")),
        ]
    );
    assert_eq!(sql.matches('?').count(), binds.len() + 1);
}

#[test]
fn a_repoint_sets_the_pipeline_and_its_name_together() {
    let mut edit = no_edit();
    edit.pipeline_id = Some("lib-pipe-2".to_string());
    edit.pipeline_name = Some("Auditor v2".to_string());
    edit.variables = Some(JsonValue::Object(vec![("depth".to_string(), JsonValue::String("full".to_string()))]));
    let (sql, binds) = update_statement(&edit).unwrap();
    assert_eq!(sql, "UPDATE triggers SET pipeline_id = ?, pipeline_name = ?, variables = ? WHERE id = ?");
    assert_eq!(binds.len(), 3);
    assert_eq!(binds[0], SetValue::Text("lib-pipe-2"));
    assert!(matches!(binds[2], SetValue::Json(JsonValue::Object(_))));
}

#[test]
fn a_fire_moves_the_last_fired_time_and_outcome() {
    let (sql, binds) = rollup_statement("fired", "2026-06-06T10:00:30.000Z", "t1");
    assert_eq!(sql, "UPDATE triggers SET last_fired_at = ?, last_outcome = ? WHERE id = ?");
    assert_eq!(binds, vec!["2026-06-06T10:00:30.000Z", "fired", "t1"]);
}

#[test]
fn a_non_fire_outcome_updates_the_last_outcome_only() {
    let (sql, binds) = rollup_statement("skipped-overlap", "2026-06-06T10:00:30.000Z", "t1");
    assert_eq!(sql, "UPDATE triggers SET last_outcome = ? WHERE id = ?");
    assert_eq!(binds, vec!["skipped-overlap", "t1"]);
}

#[test]
fn a_trigger_id_keeps_seven_characters_of_its_uuid() {
    assert_eq!(
        trigger_id("20260606-100030", "3f2b9c1a-7d4e-4b8a-9c2d-1e5f6a7b8c9d"),
        "trg-20260606-100030-3f2b9c1"
    );
}
