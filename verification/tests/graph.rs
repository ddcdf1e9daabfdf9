use genos::graph::{tool_graph_add, tool_graph_invalidate, tool_graph_query, tool_graph_timeline, EntityGraph};
use genos::json::{json_object, JsonValue};

fn s(x: &str) -> Vec<u8> {
    x.as_bytes().to_vec()
}

#[test]
fn build_and_query_knowledge_graph() {
    let mut g = EntityGraph::new();

    g.add(b"genos", b"is_a", b"UEFI OS", b"2026-01-01T00:00:00Z");
    g.add(b"genos", b"uses_model", b"Stories15M", b"2026-01-01T00:00:00Z");
    g.add(b"genos", b"written_in", b"Rust", b"2026-01-01T00:00:00Z");
    g.add(b"Stories15M", b"is_a", b"language model", b"2026-01-01T00:00:00Z");
    g.add(b"Stories15M", b"parameter_count", b"15M", b"2026-01-01T00:00:00Z");
    g.add(b"Rust", b"used_for", b"systems programming", b"2026-01-01T00:00:00Z");

    assert_eq!(g.len(), 6);

    let genos_facts = g.query(b"genos");
    assert_eq!(genos_facts.len(), 3, "genos should have 3 facts");
    assert!(genos_facts.iter().any(|t| t.relation == s("uses_model") && t.entity_b == s("Stories15M")));
    assert!(genos_facts.iter().any(|t| t.relation == s("written_in") && t.entity_b == s("Rust")));

    let model_facts = g.query(b"Stories15M");
    assert!(model_facts.len() >= 2, "Stories15M should have facts about it");
}

#[test]
fn invalidate_immediately_hides_triple() {
    let mut g = EntityGraph::new();

    g.add(b"entity", b"rel", b"old_val", b"2026-01-01T00:00:00Z");
    assert_eq!(g.len(), 1);
    let before = g.query(b"entity");
    assert_eq!(before.len(), 1, "Before invalidation: should see 1 triple");
    assert_eq!(before[0].entity_b, s("old_val"));

    let ok = g.invalidate(b"entity", b"rel", b"old_val", b"2026-04-09T12:00:00Z");
    assert!(ok, "invalidate should return true when triple was found");
    assert_eq!(g.query(b"entity").len(), 0, "Immediately after invalidation, active query must return 0");

    g.add(b"entity", b"rel", b"new_val", b"2026-04-09T12:00:00Z");
    let after = g.query(b"entity");
    assert_eq!(after.len(), 1, "After adding replacement, query must return 1");
    assert_eq!(after[0].entity_b, s("new_val"), "Replacement triple should be the new value");

    let tl = g.timeline(b"entity");
    assert_eq!(tl.len(), 2, "Timeline must retain both old and new triples");
    let old_triple = tl.iter().find(|t| t.entity_b == s("old_val")).expect("old triple in timeline");
    assert!(old_triple.valid_until.is_some(), "Old triple must have valid_until set");
    let new_triple = tl.iter().find(|t| t.entity_b == s("new_val")).expect("new triple in timeline");
    assert!(new_triple.valid_until.is_none(), "New triple must still be active");
}

#[test]
fn invalidate_nonexistent_returns_false() {
    let mut g = EntityGraph::new();
    g.add(b"entity", b"rel", b"val", b"2026-01-01T00:00:00Z");

    assert!(
        !g.invalidate(b"entity", b"rel", b"wrong_val", b"2026-04-09T12:00:00Z"),
        "Invalidating non-matching entity_b should return false"
    );
    assert!(
        !g.invalidate(b"entity", b"wrong_rel", b"val", b"2026-04-09T12:00:00Z"),
        "Invalidating non-matching relation should return false"
    );
    assert_eq!(g.query(b"entity").len(), 1, "Triple should still be active after failed invalidation attempts");
}

#[test]
fn temporal_invalidation_tracks_change() {
    let mut g = EntityGraph::new();

    g.add(b"genos", b"active_model", b"Stories15M", b"2026-01-01T00:00:00Z");
    assert_eq!(g.query(b"genos").len(), 1);

    let ok = g.invalidate(b"genos", b"active_model", b"Stories15M", b"2026-04-09T12:00:00Z");
    assert!(ok, "Should be able to invalidate existing triple");
    assert_eq!(g.query(b"genos").len(), 0, "Invalidated triple should not appear in current query");

    g.add(b"genos", b"active_model", b"Stories110M", b"2026-04-09T12:00:00Z");
    let current = g.query(b"genos");
    assert_eq!(current.len(), 1);
    assert_eq!(current[0].entity_b, s("Stories110M"), "Should now use Stories110M");

    let tl = g.timeline(b"genos");
    assert_eq!(tl.len(), 2, "Timeline should have both old and new");
    let has_both = tl.iter().any(|t| t.entity_b == s("Stories15M")) && tl.iter().any(|t| t.entity_b == s("Stories110M"));
    assert!(has_both, "Timeline should contain both model versions");
}

#[test]
fn query_as_of_returns_historical_state() {
    let mut g = EntityGraph::new();

    g.add(b"genos", b"phase", b"A", b"2025-10-01T00:00:00Z");
    g.invalidate(b"genos", b"phase", b"A", b"2025-12-01T00:00:00Z");
    g.add(b"genos", b"phase", b"B", b"2025-12-01T00:00:00Z");
    g.invalidate(b"genos", b"phase", b"B", b"2026-02-01T00:00:00Z");
    g.add(b"genos", b"phase", b"C", b"2026-02-01T00:00:00Z");
    g.invalidate(b"genos", b"phase", b"C", b"2026-04-01T00:00:00Z");
    g.add(b"genos", b"phase", b"D", b"2026-04-09T00:00:00Z");

    let in_nov = g.query_as_of(b"genos", b"2025-11-15T00:00:00Z");
    assert!(in_nov.iter().any(|t| t.entity_b == s("A")), "In Nov 2025, genos should be in phase A");

    let in_jan = g.query_as_of(b"genos", b"2026-01-15T00:00:00Z");
    assert!(in_jan.iter().any(|t| t.entity_b == s("B")), "In Jan 2026, genos should be in phase B");

    let current = g.query(b"genos");
    assert!(current.iter().any(|t| t.entity_b == s("D")), "Currently genos should be in phase D");
}

#[test]
fn graph_tool_handlers() {
    let add_args = json_object(vec![
        (s("entity_a"), JsonValue::Str(s("Alice"))),
        (s("relation"), JsonValue::Str(s("mentors"))),
        (s("entity_b"), JsonValue::Str(s("Bob"))),
    ]);
    let g_ref = &mut EntityGraph::new();
    let add_result = tool_graph_add(&add_args, b"g1", b"2026-04-09T12:00:00Z", g_ref);
    assert!(add_result.ok, "graph_add should succeed");

    let query_args = json_object(vec![(s("entity"), JsonValue::Str(s("Alice")))]);
    let query_result = tool_graph_query(&query_args, b"g2", g_ref);
    assert!(query_result.ok, "graph_query should succeed");
    let empty2 = vec![];
    let results = query_result.result.as_array().unwrap_or(&empty2);
    assert!(!results.is_empty(), "Should find Alice's relationships");

    let tl_args = json_object(vec![(s("entity"), JsonValue::Str(s("Alice")))]);
    let tl_result = tool_graph_timeline(&tl_args, b"g3", g_ref);
    assert!(tl_result.ok);
}

#[test]
fn invalidation_keeps_every_triple() {
    let mut g = EntityGraph::new();
    g.add(b"x", b"r", b"y", b"2026-01-01T00:00:00Z");
    g.add(b"x", b"r", b"y", b"2026-02-01T00:00:00Z");
    g.add(b"z", b"r", b"y", b"2026-03-01T00:00:00Z");
    assert_eq!(g.query(b"y").len(), 3);
    assert!(g.invalidate(b"x", b"r", b"y", b"2026-05-01T00:00:00Z"));
    // exactly one of the two open (x, r, y) triples closed
    assert_eq!(g.query(b"x").len(), 1);
    assert_eq!(g.query(b"y").len(), 2);
    assert_eq!(g.timeline(b"x").len(), 2);
    assert_eq!(g.len(), 3);
    // the first one in insertion order is the one closed
    let tl = g.timeline(b"x");
    assert_eq!(tl[0].valid_until, Some(s("2026-05-01T00:00:00Z")));
    assert_eq!(tl[1].valid_until, None);
}

#[test]
fn added_triple_is_found_now_and_as_of_its_start() {
    let mut g = EntityGraph::new();
    g.add(b"b", b"r", b"c", b"2026-01-01T00:00:00Z");
    g.add(b"a", b"r", b"c", b"2026-02-01T00:00:00Z");
    let now = g.query(b"a");
    assert_eq!(now.len(), 1);
    assert_eq!(now[0].entity_b, s("c"));
    let then = g.query_as_of(b"a", b"2026-02-01T00:00:00Z");
    assert_eq!(then.len(), 1);
    assert!(g.query_as_of(b"a", b"2026-01-31T23:59:59Z").is_empty());
}

#[test]
fn timeline_sorts_by_start_time() {
    let mut g = EntityGraph::new();
    g.add(b"e", b"r2", b"late", b"2026-03-01T00:00:00Z");
    g.add(b"e", b"r1", b"early", b"2026-01-01T00:00:00Z");
    let tl = g.timeline(b"e");
    assert_eq!(tl[0].entity_b, s("early"));
    assert_eq!(tl[1].entity_b, s("late"));
}

#[test]
fn graph_jsonl_roundtrip() {
    let mut g = EntityGraph::new();
    g.add(b"a", b"r", b"b", b"2026-01-01T00:00:00Z");
    g.invalidate(b"a", b"r", b"b", b"2026-02-01T00:00:00Z");
    g.add(b"c", b"r", b"d", b"2026-03-01T00:00:00Z");
    let text = g.to_jsonl();
    assert_eq!(
        text,
        s("{\"a\":\"a\",\"r\":\"r\",\"b\":\"b\",\"from\":\"2026-01-01T00:00:00Z\",\"until\":\"2026-02-01T00:00:00Z\"}\n{\"a\":\"c\",\"r\":\"r\",\"b\":\"d\",\"from\":\"2026-03-01T00:00:00Z\",\"until\":null}\n")
    );
    let mut h = EntityGraph::new();
    h.load(&text);
    assert_eq!(h.len(), 2);
    assert_eq!(h.to_jsonl(), text);
    assert_eq!(h.query(b"a").len(), 0);
    assert_eq!(h.query(b"c").len(), 1);
    let mut bad = EntityGraph::new();
    bad.load(b"not json\n\n{\"a\":\"x\"}\n");
    assert_eq!(bad.len(), 0);
}

#[test]
fn graph_tool_errors() {
    let mut g = EntityGraph::new();
    let missing_b = json_object(vec![(s("entity_a"), JsonValue::Str(s("A"))), (s("relation"), JsonValue::Str(s("r")))]);
    let r = tool_graph_add(&missing_b, b"c1", b"t", &mut g);
    assert!(!r.ok);
    let e = r.error.expect("an error");
    assert_eq!(e.code, s("invalid_args"));
    assert_eq!(e.message, s("missing 'entity_b'"));
    assert_eq!(g.len(), 0);
    let q = tool_graph_query(&json_object(vec![]), b"c2", &g);
    assert!(!q.ok);
    let args = json_object(vec![
        (s("entity_a"), JsonValue::Str(s("A"))),
        (s("relation"), JsonValue::Str(s("r"))),
        (s("entity_b"), JsonValue::Str(s("B"))),
    ]);
    let inv = tool_graph_invalidate(&args, b"c3", b"t", &mut g);
    assert!(!inv.ok);
    let e = inv.error.expect("an error");
    assert_eq!(e.code, s("not_found"));
    assert_eq!(e.message, s("no matching active triple found"));
    let add = tool_graph_add(&args, b"c4", b"2026", &mut g);
    assert!(add.ok);
    assert_eq!(add.result.get(b"triple").and_then(|v| v.as_str()), Some(&b"(A, r, B)"[..]));
    let inv2 = tool_graph_invalidate(&args, b"c5", b"2027", &mut g);
    assert!(inv2.ok);
    let tl = tool_graph_timeline(&json_object(vec![(s("entity"), JsonValue::Str(s("A")))]), b"c6", &g);
    let entries = tl.result.as_array().unwrap();
    assert_eq!(entries.len(), 1);
    assert_eq!(entries[0].get(b"valid_until").and_then(|v| v.as_str()), Some(&b"2027"[..]));
}
