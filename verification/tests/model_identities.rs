use pdo_daemon::absorption_tallies::StatsProvenance;
use pdo_daemon::model_identity::{
    main_session_identities, pair_provenance, provenance_totals, subagent_identities, IdentitySource,
    ModelIdentity, ObservedIdentity, ProvenanceCounts,
};

fn seen(model: &str, effort: Option<&str>) -> ObservedIdentity {
    ObservedIdentity { model: model.to_string(), effort: effort.map(str::to_string) }
}

fn identity(model: &str, effort: Option<&str>, model_observed: bool, effort_observed: Option<bool>) -> ModelIdentity {
    ModelIdentity { model: model.to_string(), effort: effort.map(str::to_string), model_observed, effort_observed }
}

#[test]
fn a_source_naming_the_effort_gives_it_as_observed() {
    let got = main_session_identities(
        Some(IdentitySource::ModelAndEffort),
        &vec![seen("gpt-5", Some("high"))],
        Some("gpt-4"),
        Some("low"),
    );
    assert_eq!(got, vec![identity("gpt-5", Some("high"), true, Some(true))]);
}

#[test]
fn a_mute_effort_is_not_set_never_the_requested_one() {
    let got = main_session_identities(
        Some(IdentitySource::ModelAndEffort),
        &vec![seen("gpt-5", None)],
        Some("gpt-4"),
        Some("low"),
    );
    assert_eq!(got, vec![identity("gpt-5", None, true, Some(false))]);
}

#[test]
fn a_model_only_source_keeps_the_requested_effort() {
    let got = main_session_identities(
        Some(IdentitySource::Model),
        &vec![seen("opus", Some("ignored")), seen("sonnet", None)],
        Some("haiku"),
        Some("max"),
    );
    assert_eq!(
        got,
        vec![identity("opus", Some("max"), true, Some(false)), identity("sonnet", Some("max"), true, Some(false))]
    );
    let no_effort = main_session_identities(Some(IdentitySource::Model), &vec![seen("opus", None)], None, None);
    assert_eq!(no_effort, vec![identity("opus", None, true, None)]);
}

#[test]
fn a_mute_source_falls_back_to_the_request() {
    let got = main_session_identities(Some(IdentitySource::Model), &vec![], Some("haiku"), Some("max"));
    assert_eq!(got, vec![identity("haiku", Some("max"), false, Some(false))]);
    let no_source = main_session_identities(None, &vec![seen("opus", None)], Some("haiku"), None);
    assert_eq!(no_source, vec![identity("haiku", None, false, None)]);
}

#[test]
fn a_mute_source_without_a_requested_model_invents_nothing() {
    assert!(main_session_identities(None, &vec![], None, Some("max")).is_empty());
    assert!(main_session_identities(Some(IdentitySource::ModelAndEffort), &vec![], None, None).is_empty());
}

#[test]
fn a_subagent_counts_only_what_its_source_reports() {
    assert!(subagent_identities(None, &vec![seen("opus", None)]).is_empty());
    assert_eq!(
        subagent_identities(Some(IdentitySource::Model), &vec![seen("opus", Some("high"))]),
        vec![identity("opus", None, true, None)]
    );
    assert_eq!(
        subagent_identities(Some(IdentitySource::ModelAndEffort), &vec![seen("gpt-5", Some("high"))]),
        vec![identity("gpt-5", Some("high"), true, Some(true))]
    );
}

#[test]
fn each_observation_raises_one_model_counter() {
    let mut c = ProvenanceCounts::new();
    c.observe(&identity("opus", Some("max"), true, Some(false)));
    c.observe(&identity("opus", None, false, None));
    c.observe(&identity("opus", Some("high"), true, Some(true)));
    assert_eq!(
        c,
        ProvenanceCounts { model_observed: 2, model_requested: 1, effort_observed: 1, effort_requested: 1 }
    );
}

#[test]
fn level_totals_add_the_buckets() {
    let a = ProvenanceCounts { model_observed: 2, model_requested: 1, effort_observed: 0, effort_requested: 3 };
    let b = ProvenanceCounts { model_observed: 5, model_requested: 0, effort_observed: 4, effort_requested: 1 };
    assert_eq!(
        provenance_totals(&vec![a, b]),
        ProvenanceCounts { model_observed: 7, model_requested: 1, effort_observed: 4, effort_requested: 4 }
    );
    assert_eq!(provenance_totals(&vec![]), ProvenanceCounts::new());
}

#[test]
fn a_bucket_reports_its_provenance() {
    let mixed = ProvenanceCounts { model_observed: 2, model_requested: 1, effort_observed: 0, effort_requested: 3 };
    assert_eq!(
        pair_provenance(&mixed, &Some("max".to_string())),
        (StatsProvenance::Mixed, Some(StatsProvenance::Requested))
    );
    let observed = ProvenanceCounts { model_observed: 4, model_requested: 0, effort_observed: 0, effort_requested: 0 };
    assert_eq!(pair_provenance(&observed, &None), (StatsProvenance::Observed, None));
}
