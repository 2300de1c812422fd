use pdo_daemon::script::{
    agent_holes, build_resume_script, build_script_tail, build_tmux_script, quote_hole, resume_selector, Holes, SandboxWrap,
    SessionTail,
};

const SCRIPT_42: &str = "exec bash -c 'export PDO_RUN_ID='\\''run-abc'\\'' && export PDO_NODE_ID='\\''solo'\\'' && export PDO_NODE_ITER='\\''1'\\'' && export PDO_DAEMON_URL='\\''http://localhost:5172'\\'' && export CLAUDE_CODE_DISABLE_NONESSENTIAL_TRAFFIC=1 && timeout 42s bash '\\''/tmp/body.md'\\'' ; ec=$? ; if [ $ec -eq 0 ]; then pdo complete ; cc=$? ; if [ $cc -ne 0 ] && [ $cc -ne 4 ]; then pdo fail --reason \"pdo complete refused with exit $cc after script success\" ; fi ; elif [ $ec -eq 124 ]; then pdo fail --reason \"script timed out after 42s\" ; else pdo fail --reason \"script exited $ec\" ; fi'";

const SCRIPT_SH_60: &str = "exec bash -c 'export PDO_RUN_ID='\\''run-abc'\\'' && export PDO_NODE_ID='\\''solo'\\'' && export PDO_NODE_ITER='\\''1'\\'' && export PDO_DAEMON_URL='\\''http://localhost:5172'\\'' && export CLAUDE_CODE_DISABLE_NONESSENTIAL_TRAFFIC=1 && timeout 60s bash '\\''/tmp/body.sh'\\'' ; ec=$? ; if [ $ec -eq 0 ]; then pdo complete ; cc=$? ; if [ $cc -ne 0 ] && [ $cc -ne 4 ]; then pdo fail --reason \"pdo complete refused with exit $cc after script success\" ; fi ; elif [ $ec -eq 124 ]; then pdo fail --reason \"script timed out after 60s\" ; else pdo fail --reason \"script exited $ec\" ; fi'";

const SHELL_SCRIPT: &str = "exec bash -c 'export PDO_RUN_ID='\\''run-abc'\\'' && export PDO_NODE_ID='\\''__shell__'\\'' && export PDO_NODE_ITER='\\''0'\\'' && export PDO_DAEMON_URL='\\''http://localhost:5172'\\'' && export CLAUDE_CODE_DISABLE_NONESSENTIAL_TRAFFIC=1 && while true; do bash -i; sleep 0.2; done'";

fn sample_wrap<'a>(marker: &'a str, workdir: &'a str) -> SandboxWrap<'a> {
    SandboxWrap { docker_bin: "docker", uid: 1000, gid: 1000, marker, workdir }
}

#[test]
fn build_script_tail_runs_bash_and_self_signals() {
    let script = build_tmux_script(
        "run-abc",
        "solo",
        1,
        5172,
        "/tmp/body.md",
        None,
        SessionTail::Script { timeout_secs: 42, env: &[] },
        None,
    );
    assert!(script.starts_with("exec bash -c "));
    assert_eq!(script, SCRIPT_42, "the whole script, byte for byte");
    assert!(script.contains("timeout 42s bash"), "runs body under timeout: {script}");
    assert!(script.contains("pdo complete"), "completes on success: {script}");
    assert!(script.contains("pdo fail --reason"), "fails otherwise: {script}");
    assert!(script.contains("script exited $ec"), "reports the exit code: {script}");
    assert!(script.contains("script timed out after 42s"), "reports timeout: {script}");
    assert!(script.contains("PDO_RUN_ID"));
    assert!(script.contains("CLAUDE_CODE_DISABLE_NONESSENTIAL_TRAFFIC=1"));
}

#[test]
fn build_script_tail_does_not_double_fail_on_a_refused_completion() {
    let script = build_script_tail("/tmp/body.md", 60);
    assert!(
        !script.contains("pdo complete || pdo fail"),
        "the bare `||` doubles a failure the daemon already recorded: {script}"
    );
    assert!(
        script.contains("-ne 4"),
        "the tail must discriminate exit code 4 (refused, already ruled): {script}"
    );
    assert!(
        !script.contains("output validation failed after script success"),
        "that reason was false: {script}"
    );
}

#[test]
fn build_script_tail_covers_every_arm() {
    let script = build_script_tail("/tmp/body.md", 60);
    for needle in [
        "if [ $ec -eq 0 ]; then pdo complete",
        "if [ $cc -ne 0 ] && [ $cc -ne 4 ]",
        "pdo complete refused with exit $cc after script success",
        "elif [ $ec -eq 124 ]; then pdo fail --reason \"script timed out after 60s\"",
        "else pdo fail --reason \"script exited $ec\"",
    ] {
        assert!(script.contains(needle), "missing arm {needle:?} in: {script}");
    }
}

#[test]
fn build_script_tail_quotes_the_body_path() {
    let script = build_script_tail("/tmp/it's.sh", 5);
    assert!(script.starts_with("timeout 5s bash '/tmp/it'\\''s.sh' ; ec=$?"), "{script}");
}

#[test]
fn build_script_tail_bypasses_cmd_override() {
    let script = build_tmux_script(
        "run-abc",
        "solo",
        1,
        5172,
        "/tmp/body.md",
        Some("exec sleep 99"),
        SessionTail::Script { timeout_secs: 60, env: &[] },
        None,
    );
    assert!(!script.contains("sleep 99"), "override ignored for scripts: {script}");
    assert!(script.contains("timeout 60s bash"), "script tail preserved: {script}");
}

#[test]
fn build_script_tail_injects_env_catalogue() {
    let env = vec![
        ("PDO_INPUT_TASK".to_string(), "/art/_input/output.md".to_string()),
        ("PDO_OUTPUT_OUT".to_string(), "/art/solo/iter-1/out/output.md".to_string()),
    ];
    let script = build_tmux_script(
        "run-abc",
        "solo",
        1,
        5172,
        "/tmp/body.md",
        None,
        SessionTail::Script { timeout_secs: 60, env: &env },
        None,
    );
    assert!(script.contains("export PDO_INPUT_TASK="), "input env exported: {script}");
    assert!(script.contains("export PDO_OUTPUT_OUT="), "output env exported: {script}");
    let env_at = script.find("PDO_OUTPUT_OUT").unwrap();
    let body_at = script.find("timeout 60s bash").unwrap();
    assert!(env_at < body_at, "env must be exported before the body runs: {script}");
}

#[test]
fn build_script_tail_shell_runs_env_wrapped_bash() {
    let script = build_tmux_script(
        "run-abc",
        "__shell__",
        0,
        5172,
        "/unused",
        None,
        SessionTail::Shell,
        None,
    );
    assert!(script.starts_with("exec bash -c "));
    assert!(script.contains("bash -i"), "runs interactive bash: {script}");
    assert!(
        script.contains("while true; do bash -i; sleep 0.2; done"),
        "interactive bash is wrapped in a respawn loop: {script}"
    );
    assert_eq!(script, SHELL_SCRIPT, "nothing but the exports and the loop");
    assert!(script.contains("PDO_RUN_ID"));
    assert!(
        script.contains("CLAUDE_CODE_DISABLE_NONESSENTIAL_TRAFFIC=1"),
        "env-safety export present: {script}"
    );
}

#[test]
fn build_script_tail_shell_bypasses_cmd_override() {
    let script = build_tmux_script(
        "run-abc",
        "__shell__",
        0,
        5172,
        "/unused",
        Some("exec sleep 600"),
        SessionTail::Shell,
        None,
    );
    assert!(!script.contains("sleep 600"), "override ignored for the run shell: {script}");
    assert!(
        script.contains("while true; do bash -i; sleep 0.2; done"),
        "shell tail (respawn loop) preserved: {script}"
    );
}

#[test]
fn script_tail_never_receives_settings() {
    let script = build_tmux_script(
        "run-abc",
        "solo",
        1,
        5172,
        "/tmp/body.sh",
        None,
        SessionTail::Script { timeout_secs: 60, env: &[] },
        None,
    );
    assert!(!script.contains("--settings"), "a script tail must never carry --settings: {script}");
    assert_eq!(script, SCRIPT_SH_60, "the tail is the bash body and nothing else");
}

#[test]
fn agent_tail_takes_the_launch_and_its_env() {
    let env = vec![("HARNESS_FLAG".to_string(), "a b".to_string())];
    let script = build_tmux_script(
        "r",
        "n",
        1,
        5172,
        "/tmp/p.md",
        None,
        SessionTail::Agent { launch: "exec agent --go", env: &env },
        None,
    );
    assert!(script.contains("export HARNESS_FLAG='\\''a b'\\'' && exec agent --go'"), "{script}");
    assert!(!script.contains("docker"), "no sandbox, no docker: {script}");
    assert!(!script.contains("pdo-sbx-"), "{script}");
    let overridden = build_tmux_script(
        "r",
        "n",
        1,
        5172,
        "/tmp/p.md",
        Some("exec sleep 99"),
        SessionTail::Agent { launch: "exec agent --go", env: &env },
        None,
    );
    assert!(overridden.ends_with("&& exec sleep 99'"), "{overridden}");
}

#[test]
fn sandbox_wraps_script_tail_with_env_catalogue() {
    let wrap = sample_wrap("pdo-r1-solo-iter-1", "/repo/.pdo/runs/r1/worktree");
    let env = vec![
        (
            "PDO_ARTIFACTS_DIR".to_string(),
            "/repo/.pdo/runs/r1/worktree/.pdo/artifacts".to_string(),
        ),
        (
            "PDO_OUTPUT_out".to_string(),
            "/repo/.pdo/runs/r1/worktree/.pdo/artifacts/solo/iter-1/out/output.md".to_string(),
        ),
        ("PDO_VAR_x".to_string(), "hello".to_string()),
    ];
    let script = build_tmux_script(
        "r1",
        "solo",
        1,
        6172,
        "/repo/.pdo/runs/r1/worktree/.pdo/prompts/solo-iter-1.md",
        None,
        SessionTail::Script { timeout_secs: 60, env: &env },
        Some(&wrap),
    );
    assert!(
        script.contains("-e PDO_ARTIFACTS_DIR=/repo/.pdo/runs/r1/worktree/.pdo/artifacts"),
        "{script}"
    );
    assert!(
        script.contains(
            "-e PDO_OUTPUT_out=/repo/.pdo/runs/r1/worktree/.pdo/artifacts/solo/iter-1/out/output.md"
        ),
        "{script}"
    );
    assert!(script.contains("-e PDO_VAR_x=hello"), "{script}");
    assert_eq!(
        script.matches("PDO_ARTIFACTS_DIR").count(),
        1,
        "catalogue must cross the exec once, not also host-exported: {script}"
    );
    assert!(script.contains("timeout 60s bash"), "{script}");
    assert!(script.contains("pdo complete"), "{script}");
    assert_eq!(script.matches("PDO_DAEMON_URL").count(), 1, "{script}");
}

#[test]
fn sandbox_wraps_shell_tail() {
    let wt = "/repo/.pdo/runs/r1/worktree";
    let wrap = sample_wrap("pdo-shell-r1", wt);
    let script = build_tmux_script(
        "r1",
        "__shell__",
        0,
        6172,
        wt,
        None,
        SessionTail::Shell,
        Some(&wrap),
    );
    assert!(
        script.contains("-e PDO_SBX_SESSION=pdo-shell-r1"),
        "shell marker = shell session name: {script}"
    );
    assert!(
        script.contains("while true; do bash -i; sleep 0.2; done"),
        "shell respawn loop preserved inside the container: {script}"
    );
}

#[test]
fn sandbox_exec_prefix_is_in_canonical_order() {
    let wrap = sample_wrap("pdo-r1-solo-iter-1", "/repo/.pdo/runs/r1/nodes/solo/iter-1");
    let script = build_tmux_script(
        "r1",
        "solo",
        1,
        6172,
        "/p.md",
        None,
        SessionTail::Agent { launch: "exec agent", env: &[] },
        Some(&wrap),
    );
    assert!(script.starts_with("exec bash -c "), "{script}");
    assert!(
        script.contains(
            "docker exec -i -t -e PDO_SBX_SESSION=pdo-r1-solo-iter-1 \
             -e PDO_NODE_ID -e PDO_NODE_ITER --user 1000:1000 \
             -w /repo/.pdo/runs/r1/nodes/solo/iter-1 pdo-sbx-r1 bash -lc"
        ),
        "docker exec prefix missing/wrong: {script}"
    );
    assert_eq!(script.matches("PDO_DAEMON_URL").count(), 1, "{script}");
}

#[test]
fn resume_picks_the_pinned_session_else_the_blind_verb() {
    assert_eq!(resume_selector("--resume", "--continue", Some("abc-123")), "--resume 'abc-123'");
    assert_eq!(resume_selector("--resume", "--continue", Some("")), "--continue");
    assert_eq!(resume_selector("--resume", "--continue", None), "--continue");
    // A harness without a resume-by-id verb falls back to its blind verb.
    assert_eq!(resume_selector("", "--continue", Some("abc-123")), "--continue");
    // A harness that declares neither renders no resume flag.
    assert_eq!(resume_selector("--resume", "", None), "");
    assert_eq!(resume_selector("--resume", "--continue", Some("it's")), "--resume 'it'\\''s'");
}

#[test]
fn an_empty_or_absent_hole_drops_its_flag() {
    assert_eq!(quote_hole(None), "");
    assert_eq!(quote_hole(Some("")), "");
    assert_eq!(quote_hole(Some("high")), "'high'");
}

#[test]
fn resume_script_wraps_the_resume_command_like_a_launch() {
    let env = vec![("HARNESS_FLAG".to_string(), "1".to_string())];
    let script = build_resume_script("r1", "solo", 1, 6172, &env, "exec agent --continue", None, None);
    assert_eq!(
        script,
        "exec bash -c 'export PDO_RUN_ID='\\''r1'\\'' && export PDO_NODE_ID='\\''solo'\\'' && export PDO_NODE_ITER='\\''1'\\'' && export PDO_DAEMON_URL='\\''http://localhost:6172'\\'' && export HARNESS_FLAG=1 && exec agent --continue'"
    );
    let overridden = build_resume_script("r1", "solo", 1, 6172, &env, "exec agent --continue", Some("exec sleep 5"), None);
    assert!(overridden.ends_with("&& exec sleep 5'"), "{overridden}");
    assert!(!overridden.contains("--continue"), "{overridden}");
}

#[test]
fn resume_script_re_enters_the_container_when_sandboxed() {
    let wrap = sample_wrap("pdo-r1-solo-iter-1", "/repo/wt");
    let script = build_resume_script("r1", "solo", 1, 6172, &[], "exec agent --continue", None, Some(&wrap));
    assert!(script.contains("docker exec"), "{script}");
    assert!(script.contains("exec agent --continue"), "{script}");
    let bare = build_resume_script("r1", "solo", 1, 6172, &[], "exec agent --continue", None, None);
    assert!(!bare.contains("docker"), "{bare}");
}

#[test]
fn agent_holes_quote_each_set_value() {
    let h = agent_holes(
        "/tmp/test-prompt.md",
        Some("opus"),
        Some("high"),
        Some("/tmp/settings.json"),
        Some("0b7c-uuid"),
    );
    assert_eq!(
        h,
        Holes {
            prompt: "\"$(cat '/tmp/test-prompt.md')\"".to_string(),
            model: "'opus'".to_string(),
            effort: "'high'".to_string(),
            settings: "'/tmp/settings.json'".to_string(),
            session_id: "'0b7c-uuid'".to_string(),
            resume: String::new(),
        }
    );
}

#[test]
fn agent_holes_drop_absent_or_empty_values() {
    let none = agent_holes("/tmp/p.md", None, None, None, None);
    let empty = agent_holes("/tmp/p.md", Some(""), Some(""), None, Some(""));
    for h in [&none, &empty] {
        assert_eq!(h.model, "");
        assert_eq!(h.effort, "");
        assert_eq!(h.settings, "");
        assert_eq!(h.session_id, "");
        assert_eq!(h.resume, "");
    }
    assert_eq!(none.prompt, "\"$(cat '/tmp/p.md')\"");
}

#[test]
fn agent_holes_quote_a_quote_in_a_value() {
    let h = agent_holes("/tmp/it's.md", Some("a'b"), None, None, None);
    assert_eq!(h.prompt, "\"$(cat '/tmp/it'\\''s.md')\"");
    assert_eq!(h.model, "'a'\\''b'");
}
