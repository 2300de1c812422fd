use pdo_daemon::switch_router::{route, SwitchPort};

fn port(name: &str, when: Option<bool>) -> SwitchPort {
    SwitchPort { name: name.to_string(), when }
}

#[test]
fn first_match_wins() {
    let ports = vec![port("pass", Some(true)), port("also_pass", Some(true)), port("default", None)];
    assert_eq!(route(&ports), "pass");
}

#[test]
fn no_match_falls_back_to_default() {
    let ports = vec![port("pass", Some(false)), port("fail", Some(false)), port("default", None)];
    assert_eq!(route(&ports), "default");
}

#[test]
fn a_port_without_condition_never_matches() {
    let ports = vec![port("bare", None), port("hit", Some(true))];
    assert_eq!(route(&ports), "hit");
}

#[test]
fn the_default_port_is_skipped_even_when_it_holds() {
    let ports = vec![port("default", Some(true)), port("later", Some(true))];
    assert_eq!(route(&ports), "later");
    assert_eq!(route(&[]), "default");
}
