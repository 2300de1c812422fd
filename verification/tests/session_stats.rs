use pdo_daemon::stats::{
    finish_node, finish_pipeline, harness_rows, increment_harness, period_rows, rank_entities,
    strftime_fmt, HarnessCount, SessionNodeBuilder, SessionPipelineBuilder, StatsSessionEntity,
};

#[test]
fn strftime_fmt_maps_known_buckets_only() {
    assert_eq!(strftime_fmt("day"), Some("%Y-%m-%d"));
    assert_eq!(strftime_fmt("week"), Some("%Y-W%W"));
    assert_eq!(strftime_fmt("month"), Some("%Y-%m"));
    assert_eq!(strftime_fmt("year"), None);
    assert_eq!(strftime_fmt(""), None);
}

fn tally(harnesses: &[&str]) -> HarnessCount {
    let mut c = HarnessCount::new();
    for h in harnesses {
        increment_harness(&mut c, h);
    }
    c
}

#[test]
fn a_tally_counts_each_harness_in_key_order() {
    let c = tally(&["pi", "codex", "pi", "aider", "codex", "pi"]);
    assert_eq!(c.total, 6);
    assert_eq!(
        c.by_harness,
        vec![("aider".to_string(), 1), ("codex".to_string(), 2), ("pi".to_string(), 3)]
    );
}

#[test]
fn key_order_is_by_code_point_not_by_length() {
    let c = tally(&["b", "ab", "a", "B", "é"]);
    let keys: Vec<&str> = c.by_harness.iter().map(|(k, _)| k.as_str()).collect();
    assert_eq!(keys, vec!["B", "a", "ab", "b", "é"]);
}

#[test]
fn harness_rows_keep_the_tally_order() {
    let rows = harness_rows(tally(&["pi", "codex", "pi"]).by_harness);
    assert_eq!(rows.len(), 2);
    assert_eq!((rows[0].harness.as_str(), rows[0].executions), ("codex", 1));
    assert_eq!((rows[1].harness.as_str(), rows[1].executions), ("pi", 2));
}

#[test]
fn period_rows_carry_each_bucket_tally() {
    let periods = vec![
        ("2026-07-01".to_string(), tally(&["pi"])),
        ("2026-07-02".to_string(), tally(&["codex", "codex"])),
    ];
    let rows = period_rows(periods);
    assert_eq!(rows.len(), 2);
    assert_eq!(rows[0].bucket, "2026-07-01");
    assert_eq!(rows[1].harnesses[0].harness, "codex");
    assert_eq!(rows[1].harnesses[0].executions, 2);
}

fn node_builder(name: &str, harnesses: &[&str]) -> SessionNodeBuilder {
    SessionNodeBuilder {
        name: name.to_string(),
        count: tally(harnesses),
        periods: vec![("2026-07-01".to_string(), tally(harnesses))],
    }
}

#[test]
fn a_finished_node_has_its_totals_and_no_nodes() {
    let e = finish_node("n1".to_string(), node_builder("Node one", &["pi", "pi"]));
    assert_eq!(e.id, "n1");
    assert_eq!(e.name, "Node one");
    assert_eq!(e.executions, 2);
    assert_eq!(e.harnesses.len(), 1);
    assert_eq!(e.by_period.len(), 1);
    assert!(e.nodes.is_empty());
}

#[test]
fn a_finished_pipeline_ranks_nodes_by_executions_then_id() {
    let builder = SessionPipelineBuilder {
        name: "Pipe".to_string(),
        count: tally(&["pi", "pi", "pi", "pi", "pi", "pi"]),
        periods: vec![],
        nodes: vec![
            ("a".to_string(), node_builder("A", &["pi"])),
            ("b".to_string(), node_builder("B", &["pi", "pi", "pi"])),
            ("c".to_string(), node_builder("C", &["pi"])),
            ("d".to_string(), node_builder("D", &["pi"])),
        ],
    };
    let e = finish_pipeline("p1".to_string(), builder);
    assert_eq!(e.executions, 6);
    let order: Vec<(&str, u64)> = e.nodes.iter().map(|n| (n.id.as_str(), n.executions)).collect();
    assert_eq!(order, vec![("b", 3), ("a", 1), ("c", 1), ("d", 1)]);
}

fn entity(id: &str, executions: u64) -> StatsSessionEntity {
    StatsSessionEntity {
        id: id.to_string(),
        name: id.to_string(),
        executions,
        harnesses: vec![],
        by_period: vec![],
        nodes: vec![],
    }
}

#[test]
fn ranking_is_a_permutation_in_rank_order() {
    let ranked = rank_entities(vec![
        entity("z", 2),
        entity("m", 5),
        entity("a", 2),
        entity("q", 0),
        entity("b", 5),
    ]);
    let order: Vec<&str> = ranked.iter().map(|n| n.id.as_str()).collect();
    assert_eq!(order, vec!["b", "m", "a", "z", "q"]);
    assert!(rank_entities(vec![]).is_empty());
}
