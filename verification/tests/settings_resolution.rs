use pdo_daemon::settings::{
    default_harness_with, default_model_with, env_secs, libassist_idle_ttl_with,
    reaper_interval_with, reaper_ttl_with, resolve_node_effort, resolve_node_model,
};

#[test]
fn resolve_node_effort_collapses_empty() {
    assert_eq!(resolve_node_effort(Some("low")), Some("low"), "a set level passes through");
    assert_eq!(
        resolve_node_effort(Some("turbo")),
        Some("turbo"),
        "an unknown level passes through too"
    );
    assert_eq!(resolve_node_effort(Some("")), None, "empty string collapses to unset");
    assert_eq!(resolve_node_effort(None), None, "nothing set → None");
}

#[test]
fn resolve_node_model_precedence() {
    assert_eq!(resolve_node_model(Some("haiku"), Some("opus")), Some("haiku"));
    assert_eq!(resolve_node_model(None, Some("opus")), Some("opus"));
    assert_eq!(resolve_node_model(Some(""), Some("opus")), Some("opus"));
    assert_eq!(resolve_node_model(Some("haiku"), None), Some("haiku"));
    assert_eq!(resolve_node_model(None, None), None);
    assert_eq!(resolve_node_model(Some(""), Some("")), None);
}

#[test]
fn default_model_env_and_stored_precedence() {
    assert_eq!(default_model_with(None, None), None, "no stored, no env → None");
    let env = || Some("sonnet".to_string());
    assert_eq!(default_model_with(Some("opus".to_string()), env()), Some("opus".to_string()));
    assert_eq!(default_model_with(Some(String::new()), env()), Some("sonnet".to_string()));
    assert_eq!(default_model_with(None, env()), Some("sonnet".to_string()));
    assert_eq!(default_model_with(None, Some(String::new())), None);
    assert_eq!(default_harness_with(None, Some("pi".into())), Some("pi".into()));
    assert_eq!(default_harness_with(Some("opencode".into()), Some("pi".into())), Some("opencode".into()));
}

#[test]
fn reaper_ttl_default_and_from_env() {
    assert_eq!(reaper_ttl_with(None, None).as_secs(), 3600);
    assert_eq!(reaper_ttl_with(None, env_secs(Some("120"))).as_secs(), 120);
    assert_eq!(reaper_ttl_with(None, env_secs(Some("nope"))).as_secs(), 3600);
    assert_eq!(reaper_ttl_with(Some(900), env_secs(Some("120"))).as_secs(), 900);
    // A stored 0 is ignored, the env tier applies.
    assert_eq!(reaper_ttl_with(Some(0), env_secs(Some("120"))).as_secs(), 120);
    assert_eq!(reaper_ttl_with(Some(0), None).as_secs(), 3600);
}

#[test]
fn libassist_idle_ttl_default_and_from_env() {
    assert_eq!(libassist_idle_ttl_with(None, None).as_secs(), 120);
    assert_eq!(libassist_idle_ttl_with(None, env_secs(Some("30"))).as_secs(), 30);
    assert_eq!(libassist_idle_ttl_with(Some(45), env_secs(Some("30"))).as_secs(), 45);
    assert_eq!(libassist_idle_ttl_with(Some(0), None).as_secs(), 120);
    assert_eq!(reaper_interval_with(None).as_secs(), 60);
    assert_eq!(reaper_interval_with(env_secs(Some("+15"))).as_secs(), 15);
    assert_eq!(env_secs(Some("-1")), None);
    assert_eq!(env_secs(Some("18446744073709551616")), None);
    assert_eq!(env_secs(None), None);
}
