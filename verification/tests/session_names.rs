use pdo_daemon::session::{
    libassist_session_name, manager_session_name, node_session_name, parse_session_name,
    shell_session_name, tmux_socket_name, ParsedSession, LIBASSIST_SESSION_NAME,
};

#[test]
fn parse_node_session() {
    let name = "pdo-20260506-143000-a3f1b2c-solo-iter-1";
    let parsed = parse_session_name(name).unwrap();
    assert_eq!(
        parsed,
        ParsedSession::NodeRun {
            run_id: "20260506-143000-a3f1b2c".into(),
            node_id: "solo".into(),
            iter: 1,
        }
    );
}

#[test]
fn parse_node_session_with_dashed_node_id() {
    let name = "pdo-20260506-143000-a3f1b2c-impl-worker-iter-3";
    let parsed = parse_session_name(name).unwrap();
    assert_eq!(
        parsed,
        ParsedSession::NodeRun {
            run_id: "20260506-143000-a3f1b2c".into(),
            node_id: "impl-worker".into(),
            iter: 3,
        }
    );
}

#[test]
fn parse_manager_session() {
    let name = "pdo-mgr-20260506-143000-a3f1b2c";
    let parsed = parse_session_name(name).unwrap();
    assert_eq!(
        parsed,
        ParsedSession::Manager {
            run_id: "20260506-143000-a3f1b2c".into(),
        }
    );
}

#[test]
fn parse_shell_session() {
    let name = "pdo-shell-20260506-143000-a3f1b2c";
    let parsed = parse_session_name(name).unwrap();
    assert_eq!(
        parsed,
        ParsedSession::Shell {
            run_id: "20260506-143000-a3f1b2c".into(),
        }
    );
}

#[test]
fn parse_libassist_session() {
    assert_eq!(
        parse_session_name(LIBASSIST_SESSION_NAME),
        Some(ParsedSession::LibAssist)
    );
    assert_eq!(
        parse_session_name("pdo-libassist-feature-with-review"),
        Some(ParsedSession::LibAssist)
    );
}

#[test]
fn a_bare_libassist_name_would_not_parse() {
    assert!(parse_session_name("pdo-libassist").is_none());
    assert!(parse_session_name("pdo-libassist-").is_none());
}

#[test]
fn parse_garbage_returns_none() {
    assert!(parse_session_name("foo-bar").is_none());
    assert!(parse_session_name("pdo-").is_none());
    assert!(parse_session_name("pdo-mgr-").is_none());
    assert!(parse_session_name("pdo-shell-").is_none());
    assert!(parse_session_name("pdo-libassist-").is_none());
}

#[test]
fn session_name_formatters_round_trip_through_the_parser() {
    let run_id = "20260731-153057-553fcb3";

    assert_eq!(
        parse_session_name(&node_session_name(run_id, "impl-worker", 7)),
        Some(ParsedSession::NodeRun {
            run_id: run_id.into(),
            node_id: "impl-worker".into(),
            iter: 7,
        })
    );
    assert_eq!(
        parse_session_name(&manager_session_name(run_id)),
        Some(ParsedSession::Manager {
            run_id: run_id.into()
        })
    );
    assert_eq!(
        parse_session_name(&shell_session_name(run_id)),
        Some(ParsedSession::Shell {
            run_id: run_id.into()
        })
    );
    assert_eq!(
        parse_session_name(libassist_session_name()),
        Some(ParsedSession::LibAssist)
    );
}

#[test]
fn shell_session_name_format() {
    assert_eq!(
        shell_session_name("20260506-143000-a3f1b2c"),
        "pdo-shell-20260506-143000-a3f1b2c"
    );
}

#[test]
fn libassist_session_name_format() {
    assert_eq!(libassist_session_name(), "pdo-libassist-shared");
}

#[test]
fn node_session_name_format() {
    assert_eq!(
        node_session_name("20260506-143000-a3f1b2c", "solo", 1),
        "pdo-20260506-143000-a3f1b2c-solo-iter-1"
    );
}

#[test]
fn manager_session_name_format() {
    assert_eq!(
        manager_session_name("20260506-143000-a3f1b2c"),
        "pdo-mgr-20260506-143000-a3f1b2c"
    );
}

#[test]
fn socket_name_is_scoped_to_the_daemon_port() {
    assert_eq!(tmux_socket_name(5172), "pdo-5172");
    assert_eq!(tmux_socket_name(0), "pdo-0");
    assert_ne!(tmux_socket_name(5172), tmux_socket_name(6172));
}

#[test]
fn negative_and_extreme_iterations_round_trip() {
    let run_id = "20260731-153057-553fcb3";
    for iter in [0i64, -1, i64::MAX, i64::MIN] {
        assert_eq!(
            parse_session_name(&node_session_name(run_id, "n-iter-x", iter)),
            Some(ParsedSession::NodeRun {
                run_id: run_id.into(),
                node_id: "n-iter-x".into(),
                iter,
            })
        );
    }
}

#[test]
fn a_run_id_with_a_multibyte_character_is_checked_on_bytes() {
    // 'é' is two bytes: the dash at character 23 sits at byte 24, so the
    // run-id layout (dashes at bytes 8, 15 and 23) no longer holds.
    assert!(parse_session_name("pdo-2026050é-143000-a3f1b2c-solo-iter-1").is_none());
    // An iteration that does not parse as a number is refused.
    assert!(parse_session_name("pdo-20260506-143000-a3f1b2c-solo-iter-x").is_none());
    // A node id is required after the run id.
    assert!(parse_session_name("pdo-20260506-143000-a3f1b2c--iter-1").is_none());
}
