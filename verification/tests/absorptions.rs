use pdo_daemon::absorption::{
    couple_key, couple_name, couple_scope, effort_key, effort_name, effort_of_key, group,
    parse_couple_scope, pipeline_identity, rows_share_the_scope, split_couple_key,
    supported_dimension, AbsorptionResolver, AbsorptionRow, CombineRequest, CombineRow,
    ORIGIN_MANUAL, UNKNOWN_PIPELINE,
};
use pdo_daemon::json::JsonValue;

fn obj(members: &[(&str, JsonValue)]) -> JsonValue {
    JsonValue::Object(
        members
            .iter()
            .map(|(k, v)| (k.to_string(), clone_value(v)))
            .collect(),
    )
}

fn clone_value(v: &JsonValue) -> JsonValue {
    match v {
        JsonValue::Null => JsonValue::Null,
        JsonValue::Bool(b) => JsonValue::Bool(*b),
        JsonValue::Number(n) => JsonValue::Number(n.clone()),
        JsonValue::String(s) => JsonValue::String(s.clone()),
        JsonValue::Array(a) => JsonValue::Array(a.iter().map(clone_value).collect()),
        JsonValue::Object(m) => {
            JsonValue::Object(m.iter().map(|(k, v)| (k.clone(), clone_value(v))).collect())
        }
    }
}

fn s(text: &str) -> JsonValue {
    JsonValue::String(text.to_string())
}

fn row(dimension: &str, scope: &str, member: &str, absorbent: &str) -> AbsorptionRow {
    AbsorptionRow {
        dimension: dimension.to_string(),
        scope: scope.to_string(),
        scope_name: scope.to_uppercase(),
        member: member.to_string(),
        member_name: member.to_uppercase(),
        absorbent: absorbent.to_string(),
        absorbent_name: absorbent.to_uppercase(),
        origin: ORIGIN_MANUAL.to_string(),
        created_at: "2026-09-24T00:00:00Z".to_string(),
    }
}

#[test]
fn couple_keys_and_scopes_round_trip() {
    assert_eq!(couple_key("m", None), "m|");
    assert_eq!(couple_key("m", Some("high")), "m|high");
    assert_eq!(split_couple_key("m|high"), Some(("m".to_string(), Some("high".to_string()))));
    assert_eq!(split_couple_key("m|"), Some(("m".to_string(), None)));
    assert_eq!(split_couple_key("nope"), None);
    assert_eq!(split_couple_key("|high"), None);
    assert_eq!(couple_name("m", None), "m · not set");
    assert_eq!(couple_name("m", Some("low")), "m · low");
    let scope = couple_scope("a \"b\"", "n");
    assert_eq!(scope, "[\"a \\\"b\\\"\",\"n\"]");
    assert_eq!(parse_couple_scope(&scope), Some(("a \"b\"".to_string(), "n".to_string())));
    assert_eq!(parse_couple_scope(&couple_scope("", "n")), None);
    assert_eq!(parse_couple_scope("not json"), None);
}

#[test]
fn effort_keys_and_names() {
    assert_eq!(effort_key(None), "");
    assert_eq!(effort_key(Some("high")), "high");
    assert_eq!(effort_of_key(""), None);
    assert_eq!(effort_of_key("high"), Some("high".to_string()));
    assert_eq!(effort_name(None), "not set");
    assert_eq!(effort_name(Some("max")), "max");
}

#[test]
fn an_absorbed_run_takes_the_absorbents_stored_name() {
    let rows = vec![AbsorptionRow {
        dimension: "pipeline".to_string(),
        scope: String::new(),
        scope_name: String::new(),
        member: "old".to_string(),
        member_name: "Old".to_string(),
        absorbent: "new".to_string(),
        absorbent_name: "New".to_string(),
        origin: ORIGIN_MANUAL.to_string(),
        created_at: "2026-09-24T00:00:00Z".to_string(),
    }];
    let resolver = AbsorptionResolver::from_rows(&rows);
    let absorbed =
        resolver.run_identity(&obj(&[("pipeline_id", s("old")), ("pipeline_name", s("Old"))]));
    assert_eq!(absorbed.pipeline_key, "new");
    assert_eq!(absorbed.pipeline_name, "New");
    assert!(!absorbed.own_name);
    let own =
        resolver.run_identity(&obj(&[("pipeline_id", s("new")), ("pipeline_name", s("New v2"))]));
    let mut slot = String::new();
    absorbed.adopt_name(&mut slot);
    assert_eq!(slot, "New");
    own.adopt_name(&mut slot);
    assert_eq!(slot, "New v2");
    absorbed.adopt_name(&mut slot);
    assert_eq!(slot, "New v2");
}

#[test]
fn the_identity_falls_back_from_id_to_name_to_unknown() {
    assert_eq!(
        pipeline_identity(&obj(&[("pipeline_name", s("Only name"))])),
        ("Only name".to_string(), "Only name".to_string())
    );
    assert_eq!(
        pipeline_identity(&obj(&[])),
        (UNKNOWN_PIPELINE.to_string(), UNKNOWN_PIPELINE.to_string())
    );
    assert_eq!(
        pipeline_identity(&obj(&[("pipeline_id", s("p1")), ("pipeline_name", s("P"))])),
        ("p1".to_string(), "P".to_string())
    );
}

#[test]
fn uncombined_reads_through_an_empty_resolver() {
    let resolver = AbsorptionResolver::empty();
    assert_eq!(resolver.pipeline("a"), "a");
    assert_eq!(resolver.stored_name("a"), None);
}

#[test]
fn node_absorptions_apply_under_their_pipeline_row_only() {
    let rows = vec![row("node", "p1", "n1", "n2"), row("pipeline", "", "p0", "p1")];
    let resolver = AbsorptionResolver::from_rows(&rows);
    let payload = obj(&[
        ("pipeline_id", s("p1")),
        (
            "node_defs",
            JsonValue::Array(vec![
                obj(&[("id", s("n1")), ("name", s("Node one"))]),
                obj(&[("id", s("n2")), ("name", s("Node two"))]),
                obj(&[("name", s("no id"))]),
            ]),
        ),
    ]);
    let run = resolver.run_identity(&payload);
    assert_eq!(run.node_defs.len(), 2);
    let n = run.node("n1");
    assert_eq!((n.key.as_str(), n.raw_key.as_str(), n.own_name), ("n2", "n1", false));
    assert_eq!(n.name, "N2", "the absorbent's stored name");
    let own = run.node("n2");
    assert_eq!((own.key.as_str(), own.name.as_str(), own.own_name), ("n2", "Node two", true));
    assert_eq!(run.node_name("n9"), "n9");
    // A Run of the absorbed pipeline is counted under p1, with p1's nodes.
    let absorbed = resolver.run_identity(&obj(&[("pipeline_id", s("p0"))]));
    assert_eq!(absorbed.pipeline_key, "p1");
    assert_eq!(absorbed.node("n1").key, "n2");
    // Another pipeline keeps its nodes.
    let other = resolver.run_identity(&obj(&[("pipeline_id", s("p9"))]));
    assert_eq!(other.node("n1").key, "n1");
}

#[test]
fn a_couple_resolves_global_first_then_on_its_raw_node() {
    let scope = couple_scope("p1", "n1");
    let rows = vec![
        row("model", "", "m-old", "m-new"),
        row("effort", "m-old", "low", "high"),
        row("couple", &scope, "m-new|high", "m-new|max"),
    ];
    let resolver = AbsorptionResolver::from_rows(&rows);
    let run = resolver.run_identity(&obj(&[("pipeline_id", s("p1"))]));
    assert_eq!(run.model("m-old"), "m-new");
    assert_eq!(run.effort("m-old", Some("low")), Some("high".to_string()));
    assert_eq!(run.effort("m-new", Some("low")), Some("low".to_string()));
    let c = run.couple(Some("n1"), "m-old", Some("low"));
    assert_eq!(c.raw_key, "m-old|low");
    assert_eq!(c.global_key, "m-new|high");
    assert!(c.global);
    assert_eq!(c.key, "m-new|max");
    assert_eq!((c.model.as_str(), c.effort.as_deref()), ("m-new", Some("max")));
    assert_eq!(c.scope, scope);
    // Off the node (the « By model » axis) only the global steps apply.
    let g = run.couple(None, "m-old", Some("low"));
    assert_eq!((g.key.as_str(), g.scope.as_str()), ("m-new|high", ""));
    // An untouched couple stays raw.
    let raw = run.couple(Some("n1"), "x", None);
    assert_eq!((raw.key.as_str(), raw.global), ("x|", false));
}

#[test]
fn the_read_does_not_depend_on_the_listing_order() {
    let a = vec![row("pipeline", "", "a", "z"), row("pipeline", "", "b", "z"), row("model", "", "m", "n")];
    let b = vec![row("model", "", "m", "n"), row("pipeline", "", "b", "z"), row("pipeline", "", "a", "z")];
    let ra = AbsorptionResolver::from_rows(&a);
    let rb = AbsorptionResolver::from_rows(&b);
    let ma: Vec<String> = ra.pipelines().members_of("z").into_iter().map(|n| n.key).collect();
    let mb: Vec<String> = rb.pipelines().members_of("z").into_iter().map(|n| n.key).collect();
    assert_eq!(ma, vec!["a".to_string(), "b".to_string()]);
    assert_eq!(ma, mb);
    assert_eq!(ra.pipeline("b"), "z");
    assert_eq!(rb.models().resolve("m"), "n");
}

#[test]
fn the_listing_groups_members_under_their_absorbent_in_key_order() {
    let list = group(vec![
        row("pipeline", "", "b", "z"),
        row("model", "", "m1", "m"),
        row("pipeline", "", "a", "z"),
        row("pipeline", "", "c", "y"),
    ]);
    let keys: Vec<(&str, &str, Vec<&str>)> = list
        .absorptions
        .iter()
        .map(|v| {
            (
                v.dimension.as_str(),
                v.absorbent.key.as_str(),
                v.members.iter().map(|m| m.key.as_str()).collect(),
            )
        })
        .collect();
    assert_eq!(
        keys,
        vec![("model", "m", vec!["m1"]), ("pipeline", "y", vec!["c"]), ("pipeline", "z", vec!["b", "a"])]
    );
    assert_eq!(list.absorptions[2].absorbent.name, "Z");
    assert!(group(vec![]).absorptions.is_empty());
}

#[test]
fn a_request_keeps_to_one_scope() {
    let r = |scope: Option<&str>| CombineRow {
        key: "k".to_string(),
        name: "K".to_string(),
        scope: scope.map(str::to_string),
    };
    let req = |abs: CombineRow, members: Vec<CombineRow>| CombineRequest {
        dimension: "node".to_string(),
        scope: "p1".to_string(),
        scope_name: "P1".to_string(),
        absorbent: abs,
        members,
    };
    assert!(rows_share_the_scope(&req(r(Some("p1")), vec![r(None), r(Some("p1"))])));
    assert!(!rows_share_the_scope(&req(r(Some("p1")), vec![r(Some("p2"))])));
    assert!(!rows_share_the_scope(&req(r(Some("p2")), vec![])));
    let named = r(None).named();
    assert_eq!((named.key.as_str(), named.name.as_str()), ("k", "K"));
    assert!(supported_dimension("couple"));
    assert!(!supported_dimension("harness"));
}
