use pdo_daemon::absorption::{
    couple_scope, AbsorptionResolver, AbsorptionRow, CombineRequest, CombineRow, Named, COUPLE, EFFORT, MODEL,
    NODE, ORIGIN_MANUAL, PIPELINE,
};
use pdo_daemon::absorption_requests::{
    combine_frozen_rows, combine_refusal, covered_scopes, create_absorption_rows, node_label, RunHistory,
};
use pdo_daemon::absorption_store::{combine_scoped, remove_member_rows};
use pdo_daemon::json::JsonValue;

const NOW: &str = "2026-09-24T00:00:00Z";

fn model(key: &str) -> Named {
    Named { key: key.to_string(), name: key.to_string() }
}

fn named(key: &str) -> Named {
    Named { key: key.to_string(), name: key.to_uppercase() }
}

fn run_of(pipeline: &str) -> JsonValue {
    JsonValue::Object(vec![
        ("pipeline_id".to_string(), JsonValue::String(pipeline.to_string())),
        ("pipeline_name".to_string(), JsonValue::String(pipeline.to_uppercase())),
    ])
}

fn combine(rows: &mut Vec<AbsorptionRow>, dimension: &str, scope: &str, absorbent: Named, members: &[Named]) {
    combine_scoped(rows, dimension, scope, "", &absorbent, members, ORIGIN_MANUAL, NOW);
}

fn no_history() -> RunHistory {
    RunHistory { ran: vec![], latest: vec![] }
}

/// (dimension, scope, member, absorbent) of the effort and couple rows, sorted.
fn frozen_rows(rows: &[AbsorptionRow]) -> Vec<(String, String, String, String)> {
    let mut out: Vec<_> = rows
        .iter()
        .filter(|row| row.dimension == EFFORT || row.dimension == COUPLE)
        .map(|row| (row.dimension.clone(), row.scope.clone(), row.member.clone(), row.absorbent.clone()))
        .collect();
    out.sort();
    out
}

fn row(key: &str, scope: Option<&str>) -> CombineRow {
    CombineRow { key: key.to_string(), name: key.to_uppercase(), scope: scope.map(String::from) }
}

fn request(dimension: &str, scope: &str, absorbent: CombineRow, members: Vec<CombineRow>) -> CombineRequest {
    CombineRequest {
        dimension: dimension.to_string(),
        scope: scope.to_string(),
        scope_name: String::new(),
        absorbent,
        members,
    }
}

#[test]
fn an_effort_absorption_is_written_once_per_raw_model_it_covers() {
    let mut rows = Vec::new();
    combine(&mut rows, MODEL, "", model("m55"), &[model("m5")]);
    combine_frozen_rows(&mut rows, EFFORT, "m55", "m55", &model("high"), &[model("")], ORIGIN_MANUAL, NOW, &no_history());
    let frozen = |scope: &str| (EFFORT.to_string(), scope.to_string(), String::new(), "high".to_string());
    assert_eq!(frozen_rows(&rows), vec![frozen("m5"), frozen("m55")]);

    // A model absorbed later is not covered; one taken out keeps its rows.
    combine(&mut rows, MODEL, "", model("m55"), &[model("m48")]);
    remove_member_rows(&mut rows, MODEL, "", "m5");
    let resolver = AbsorptionResolver::from_rows(&rows);
    let identity = resolver.run_identity(&run_of("p"));
    assert_eq!(identity.effort("m5", None).as_deref(), Some("high"));
    assert_eq!(identity.effort("m55", None).as_deref(), Some("high"));
    assert_eq!(identity.effort("m48", None), None, "not covered");
    assert_eq!(identity.effort("m5", Some("low")).as_deref(), Some("low"));
}

#[test]
fn a_couple_absorption_covers_the_raw_nodes_of_its_row_where_they_ran() {
    let mut rows = Vec::new();
    let history = RunHistory {
        ran: vec![
            ("p".to_string(), "coder".to_string()),
            ("p".to_string(), "implementer".to_string()),
            ("q".to_string(), "coder".to_string()),
        ],
        latest: vec![("p".to_string(), run_of("p")), ("q".to_string(), run_of("q"))],
    };
    combine_scoped(&mut rows, PIPELINE, "", "", &named("p"), &[named("q")], ORIGIN_MANUAL, NOW);
    combine_scoped(&mut rows, NODE, "p", "P", &named("implementer"), &[named("coder")], ORIGIN_MANUAL, NOW);
    combine_frozen_rows(
        &mut rows,
        COUPLE,
        &couple_scope("p", "implementer"),
        "Implementer (P)",
        &model("m|high"),
        &[model("m|")],
        ORIGIN_MANUAL,
        NOW,
        &history,
    );
    let scopes: Vec<String> = frozen_rows(&rows).into_iter().map(|(_, scope, _, _)| scope).collect();
    assert_eq!(
        scopes,
        vec![couple_scope("p", "coder"), couple_scope("p", "implementer"), couple_scope("q", "coder")],
        "q never ran `implementer`: no row for it"
    );
    let names: Vec<String> =
        rows.iter().filter(|row| row.dimension == COUPLE).map(|row| row.scope_name.clone()).collect();
    assert!(names.contains(&"Implementer (P)".to_string()), "{names:?}");
    assert!(names.contains(&"coder (Q)".to_string()), "{names:?}");
}

#[test]
fn covered_scopes_of_an_effort_row_are_its_model_then_the_absorbed_models() {
    let mut rows = Vec::new();
    combine(&mut rows, MODEL, "", model("m9"), &[model("m3"), model("m1")]);
    let covered = covered_scopes(&rows, EFFORT, "m9", "m9", &no_history());
    let keys: Vec<&str> = covered.iter().map(|n| n.key.as_str()).collect();
    assert_eq!(keys, vec!["m9", "m1", "m3"]);
    assert!(covered_scopes(&rows, COUPLE, "not a scope", "", &no_history()).is_empty());
}

#[test]
fn a_node_label_names_the_node_and_its_pipeline() {
    let payload = JsonValue::Object(vec![
        ("pipeline_id".to_string(), JsonValue::String("p".to_string())),
        ("pipeline_name".to_string(), JsonValue::String("Release".to_string())),
        (
            "node_defs".to_string(),
            JsonValue::Array(vec![JsonValue::Object(vec![
                ("id".to_string(), JsonValue::String("n1".to_string())),
                ("name".to_string(), JsonValue::String("Build".to_string())),
            ])]),
        ),
    ]);
    assert_eq!(node_label("p", "n1", &payload), "Build (Release)");
    assert_eq!(node_label("p", "n2", &payload), "n2 (Release)");
    assert_eq!(node_label("p", "n1", &JsonValue::Null), "n1 (p)");
}

#[test]
fn each_refused_combine_says_why() {
    let rows: Vec<AbsorptionRow> = Vec::new();
    let refusal = |body: &CombineRequest| combine_refusal(&rows, body).unwrap_or_default();
    assert_eq!(
        refusal(&request("colour", "", row("a", None), vec![row("b", None)])),
        "unsupported absorption dimension: colour"
    );
    assert_eq!(
        refusal(&request(PIPELINE, "x", row("a", None), vec![row("b", None)])),
        "a pipeline absorption has no scope"
    );
    assert_eq!(
        refusal(&request(NODE, " ", row("a", None), vec![row("b", None)])),
        "a node absorption needs the pipeline its nodes run under"
    );
    assert_eq!(
        refusal(&request(NODE, "p", row("a", Some("p")), vec![row("b", Some("q"))])),
        "nodes of different pipelines cannot be combined"
    );
    assert_eq!(
        refusal(&request(EFFORT, "", row("high", None), vec![row("", None)])),
        "an effort absorption needs the model its efforts ran on"
    );
    assert_eq!(
        refusal(&request(EFFORT, "m", row("high", Some("m")), vec![row("", Some("n"))])),
        "efforts of different models cannot be combined"
    );
    assert_eq!(
        refusal(&request(COUPLE, "p", row("m|high", None), vec![row("m|", None)])),
        "a couple absorption needs the pipeline and the node its couples ran under"
    );
    let scope = couple_scope("p", "n");
    assert_eq!(
        refusal(&request(COUPLE, &scope, row("m|high", None), vec![row("plain", None)])),
        "not a model \u{d7} effort couple: PLAIN"
    );
    assert_eq!(
        refusal(&request(PIPELINE, "", row(" ", None), vec![row("b", None)])),
        "absorbent key is empty"
    );
    assert_eq!(
        refusal(&request(PIPELINE, "", row("a", None), vec![row("a", None)])),
        "an absorption needs at least one other member"
    );
    assert_eq!(
        refusal(&request(PIPELINE, "", row("a", None), vec![row("b", None), row("", None)])),
        "member key is empty"
    );
    assert_eq!(combine_refusal(&rows, &request(EFFORT, "m", row("high", None), vec![row("", None)])), None);
}

#[test]
fn a_combine_under_an_absorbed_row_is_refused() {
    let mut rows = Vec::new();
    combine(&mut rows, PIPELINE, "", named("p"), &[named("q")]);
    combine(&mut rows, MODEL, "", model("m55"), &[model("m5")]);
    combine_scoped(&mut rows, NODE, "p", "P", &named("implementer"), &[named("coder")], ORIGIN_MANUAL, NOW);
    let refusal = |body: &CombineRequest| combine_refusal(&rows, body).unwrap_or_default();
    assert_eq!(
        refusal(&request(NODE, "q", row("a", None), vec![row("b", None)])),
        "this pipeline is combined into another: combine its nodes there"
    );
    assert_eq!(
        refusal(&request(EFFORT, "m5", row("high", None), vec![row("", None)])),
        "this model is combined into another: combine its efforts there"
    );
    assert_eq!(
        refusal(&request(COUPLE, &couple_scope("q", "n"), row("m|high", None), vec![row("m|", None)])),
        "this pipeline is combined into another: combine its couples there"
    );
    assert_eq!(
        refusal(&request(COUPLE, &couple_scope("p", "coder"), row("m|high", None), vec![row("m|", None)])),
        "this node is combined into another: combine its couples there"
    );
}

#[test]
fn a_refused_combine_writes_nothing_and_an_accepted_one_writes() {
    let mut rows = Vec::new();
    let refused = request(PIPELINE, "", row("a", None), vec![row("a", None)]);
    assert_eq!(
        create_absorption_rows(&mut rows, &refused, NOW, &no_history()),
        Err("an absorption needs at least one other member".to_string())
    );
    assert!(rows.is_empty());
    let accepted = request(PIPELINE, "", row("a", None), vec![row("a", None), row("b", None)]);
    assert_eq!(create_absorption_rows(&mut rows, &accepted, NOW, &no_history()), Ok(()));
    assert_eq!(rows.len(), 1);
    assert_eq!(rows[0].member, "b");
    assert_eq!(rows[0].absorbent, "a");
    assert_eq!(rows[0].origin, ORIGIN_MANUAL);
}
