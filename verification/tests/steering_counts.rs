use pdo_daemon::json::JsonValue;
use pdo_daemon::steering::{
    claude_steering_count, copilot_steering_count, main_session_steering, pi_steering_count,
    runtime_message, transcript_lines, TranscriptFormat,
};

fn convert(v: serde_json::Value) -> JsonValue {
    match v {
        serde_json::Value::Null => JsonValue::Null,
        serde_json::Value::Bool(b) => JsonValue::Bool(b),
        serde_json::Value::Number(n) => JsonValue::Number(n.to_string()),
        serde_json::Value::String(s) => JsonValue::String(s),
        serde_json::Value::Array(a) => JsonValue::Array(a.into_iter().map(convert).collect()),
        serde_json::Value::Object(o) => {
            JsonValue::Object(o.into_iter().map(|(k, v)| (k, convert(v))).collect())
        }
    }
}

/// The transcript's lines, each read as JSON (`None` when it is not JSON).
fn read(text: &str) -> Vec<Option<JsonValue>> {
    transcript_lines(text)
        .iter()
        .map(|l| serde_json::from_str::<serde_json::Value>(l).ok().map(convert))
        .collect()
}

fn claude_user(text: &str) -> String {
    format!(
        r#"{{"type":"user","message":{{"role":"user","content":{}}}}}"#,
        serde_json::Value::from(text)
    )
}

#[test]
fn runtime_message_prefixes_once() {
    assert_eq!(runtime_message("hello"), "[pdo-runtime] hello");
    assert_eq!(
        runtime_message("[pdo-runtime] hello"),
        "[pdo-runtime] hello"
    );
}

#[test]
fn claude_excludes_the_launch_prompt_by_position() {
    let text = [
        claude_user("launch"),
        claude_user("steer 1"),
        claude_user("steer 2"),
    ]
    .join("\n");
    assert_eq!(claude_steering_count(&read(&text)), Some(2));
}

#[test]
fn claude_a_lone_launch_prompt_is_zero_steering_not_unreadable() {
    assert_eq!(claude_steering_count(&read(&claude_user("launch"))), Some(0));
    assert_eq!(claude_steering_count(&read("")), None);
    assert_eq!(
        claude_steering_count(&read(
            r#"{"type":"assistant","message":{"model":"m","usage":{}}}"#
        )),
        None
    );
}

#[test]
fn claude_subtracts_runtime_tagged_turns() {
    let text = [
        claude_user("launch"),
        claude_user("[pdo-runtime] your output is missing frontmatter"),
        claude_user("human steer"),
    ]
    .join("\n");
    assert_eq!(claude_steering_count(&read(&text)), Some(1));
}

#[test]
fn claude_ignores_tool_results_meta_compaction_sidechain_and_interrupts() {
    let text = [
        claude_user("launch"),
        r#"{"type":"user","message":{"role":"user","content":[{"type":"tool_result","tool_use_id":"t","content":"out"}]},"toolUseResult":{"stdout":"out"}}"#.to_string(),
        r#"{"type":"user","isMeta":true,"message":{"role":"user","content":[{"type":"text","text":"Base directory for this skill: /x"}]}}"#.to_string(),
        r#"{"type":"user","isCompactSummary":true,"message":{"role":"user","content":"This session is being continued from a previous conversation"}}"#.to_string(),
        r#"{"type":"user","isSidechain":true,"message":{"role":"user","content":"subagent prompt"}}"#.to_string(),
        r#"{"type":"user","message":{"role":"user","content":[{"type":"text","text":"[Request interrupted by user]"}]}}"#.to_string(),
        r#"{"type":"user","message":{"role":"user","content":[{"type":"text","text":"typed as a block"}]}}"#.to_string(),
        "not json".to_string(),
    ]
    .join("\n");
    assert_eq!(claude_steering_count(&read(&text)), Some(1));
}

#[test]
fn copilot_counts_user_message_events_after_the_first() {
    let text = [
        r#"{"type":"session.start","data":{}}"#,
        r#"{"type":"user.message","data":{"content":"launch"}}"#,
        r#"{"type":"assistant.turn_end","data":{}}"#,
        r#"{"type":"user.message","data":{"content":"[pdo-runtime] retry"}}"#,
        r#"{"type":"user.message","data":{"content":"steer"}}"#,
        r#"{"type":"user.message","data":{"content":"steer again"}}"#,
    ]
    .join("\n");
    assert_eq!(copilot_steering_count(&read(&text)), Some(2));
    assert_eq!(
        copilot_steering_count(&read(r#"{"type":"session.start","data":{}}"#)),
        None
    );
}

#[test]
fn pi_counts_user_role_messages_after_the_first() {
    let text = [
        r#"{"type":"session","id":"s"}"#,
        r#"{"type":"message","message":{"role":"user","content":[{"type":"text","text":"launch"}]}}"#,
        r#"{"type":"message","message":{"role":"assistant","content":[{"type":"text","text":"ok"}]}}"#,
        r#"{"type":"message","message":{"role":"user","content":"steer"}}"#,
        r#"{"type":"message","message":{"role":"user","content":"[pdo-runtime] retry"}}"#,
        r#"{"type":"message","message":{"role":"toolResult","content":[{"type":"text","text":"x"}]}}"#,
    ]
    .join("\n");
    assert_eq!(pi_steering_count(&read(&text)), Some(1));
    assert_eq!(pi_steering_count(&read(r#"{"type":"session","id":"s"}"#)), None);
}

#[test]
fn transcript_lines_follow_str_lines() {
    assert_eq!(transcript_lines("a\r\nb\nc\r"), vec!["a", "b", "c\r"]);
    assert_eq!(transcript_lines("a\n"), vec!["a"]);
    assert!(transcript_lines("").is_empty());
    assert_eq!(transcript_lines("\n\nx"), vec!["", "", "x"]);
}

#[test]
fn blank_and_indented_runtime_turns_do_not_count() {
    let text = [
        claude_user("launch"),
        claude_user("   "),
        claude_user("  [pdo-runtime] indented"),
        claude_user("real"),
    ]
    .join("\n");
    assert_eq!(claude_steering_count(&read(&text)), Some(1));
}

#[test]
fn a_main_session_reads_its_steering_count() {
    let text = [claude_user("launch"), claude_user("steer")].join("\n");
    let lines = read(&text);
    assert_eq!(
        main_session_steering(Some(TranscriptFormat::Claude), "any", Some("s1"), Some(&lines)),
        (Some(1), None)
    );
}

#[test]
fn a_main_session_without_a_reading_says_why() {
    let lines = read(&claude_user("launch"));
    assert_eq!(
        main_session_steering(None, "opencode", Some("s1"), Some(&lines)),
        (None, Some("session not resolvable on opencode".to_string()))
    );
    assert_eq!(
        main_session_steering(Some(TranscriptFormat::Pi), "pi", None, Some(&lines)),
        (None, Some("no session identity".to_string()))
    );
    assert_eq!(
        main_session_steering(Some(TranscriptFormat::Pi), "pi", Some(""), Some(&lines)),
        (None, Some("no session identity".to_string()))
    );
    assert_eq!(
        main_session_steering(Some(TranscriptFormat::Copilot), "copilot", Some("s1"), None),
        (None, Some("no attributable transcript".to_string()))
    );
    let empty = read("");
    assert_eq!(
        main_session_steering(Some(TranscriptFormat::Claude), "x", Some("s1"), Some(&empty)),
        (None, Some("no readable human turn in transcript".to_string()))
    );
}
