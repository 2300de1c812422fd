use pdo_daemon::transcript_labels::{harness_display_label, looks_like_opaque_id, subagent_group};

#[test]
fn a_uuid_stem_is_an_opaque_id() {
    assert!(looks_like_opaque_id("550e8400-e29b-41d4-a716-446655440000"));
    assert!(looks_like_opaque_id("550E8400-E29B-41D4-A716-446655440000"));
}

#[test]
fn a_misplaced_dash_or_a_non_hex_digit_is_no_uuid() {
    assert!(!looks_like_opaque_id("550e8400e-29b-41d4-a716-446655440000"));
    assert!(!looks_like_opaque_id("550e8400-e29b-41d4-a716-44665544000g"));
    assert!(!looks_like_opaque_id("550e8400-e29b-41d4-a716-4466554400001"));
}

#[test]
fn sixteen_hex_digits_are_an_opaque_id_fifteen_are_not() {
    assert!(looks_like_opaque_id("0123456789abcdef"));
    assert!(!looks_like_opaque_id("0123456789abcde"));
    assert!(!looks_like_opaque_id("0123456789abcdefg"));
}

#[test]
fn a_named_subagent_keeps_its_name() {
    assert_eq!(subagent_group("test-runner"), "test-runner");
    assert_eq!(subagent_group("deadbeef"), "deadbeef");
}

#[test]
fn an_empty_or_opaque_stem_is_unidentified() {
    assert_eq!(subagent_group(""), "Unidentified subagent");
    assert_eq!(
        subagent_group("550e8400-e29b-41d4-a716-446655440000"),
        "Unidentified subagent"
    );
    assert_eq!(subagent_group("a1b2c3d4e5f60718293a"), "Unidentified subagent");
}

#[test]
fn a_harness_label_capitalises_its_first_character() {
    assert_eq!(harness_display_label("codex"), "Codex");
    assert_eq!(harness_display_label("pi"), "Pi");
    assert_eq!(harness_display_label("Copilot"), "Copilot");
    assert_eq!(harness_display_label("9lives"), "9lives");
    assert_eq!(harness_display_label(""), "");
}

#[test]
fn a_harness_label_upper_cases_beyond_ascii() {
    assert_eq!(harness_display_label("éclair"), "Éclair");
    assert_eq!(harness_display_label("ßeta"), "SSeta");
}
