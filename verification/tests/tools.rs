use genos::hal::{MemInfo, WallTime};
use genos::json::{json_object, parse, JsonValue};
use genos::palace::{
    classify_hall, format_status_header, parse_facts_kv, render_facts, Hall, WingType,
};
use genos::registry::{ToolCall, ToolRegistry, ToolResult};

fn s(x: &str) -> Vec<u8> {
    x.as_bytes().to_vec()
}

fn contains(hay: &[u8], needle: &str) -> bool {
    hay.windows(needle.len()).any(|w| w == needle.as_bytes())
}

#[test]
fn hall_enum_coverage() {
    for hall in Hall::all() {
        let name = hall.as_str();
        let parsed = Hall::from_str(name.as_bytes()).expect("every hall name parses");
        assert_eq!(parsed.as_str(), name);
    }
    assert!(Hall::from_str(b"nonexistent_hall").is_none());
}

#[test]
fn wing_type_coverage() {
    for (name, _) in &[("project", WingType::Project), ("person", WingType::Person), ("general", WingType::General)] {
        let parsed = WingType::from_str(name.as_bytes()).expect("every wing type parses");
        assert_eq!(&parsed.as_str(), name);
    }
    assert!(WingType::from_str(b"invalid").is_none());
}

#[test]
fn registry_covers_all_tool_categories() {
    let reg = ToolRegistry::default_registry();
    let names: Vec<&str> = reg.list().iter().map(|t| t.name).collect();
    for prefix in ["fs.", "memory.", "net.", "palace.", "sys."] {
        assert!(names.iter().any(|n| n.starts_with(prefix)), "missing {prefix}* tools");
    }
}

#[test]
fn find_tools_by_dot_name() {
    let reg = ToolRegistry::default_registry();
    for name in &["fs.read", "fs.write", "fs.list", "fs.delete",
                  "memory.store", "memory.search", "memory.facts_get",
                  "memory.facts_set", "memory.consolidate", "memory.forget",
                  "memory.graph_add", "memory.graph_query",
                  "memory.graph_invalidate", "memory.graph_timeline",
                  "net.fetch", "palace.create_wing", "palace.list_wings",
                  "palace.find_tunnels", "sys.clock", "sys.introspect"] {
        assert!(reg.find(name.as_bytes()).is_some(), "Tool '{}' should be registered", name);
    }
    assert!(reg.find(b"web.get_page").is_none());
}

#[test]
fn manifest_contains_all_tools_with_docs() {
    let reg = ToolRegistry::default_registry();
    let manifest = reg.manifest();
    assert!(!manifest.is_empty());
    for tool in reg.list() {
        assert!(contains(&manifest, tool.name), "manifest should mention {}", tool.name);
        assert!(!tool.description.is_empty());
    }
    assert!(contains(&manifest, "tool_call") || contains(&manifest, "{") || contains(&manifest, "call"));
}

#[test]
fn tool_result_success_contract() {
    let r = ToolResult::success(
        b"abc123",
        json_object(vec![
            (s("data"), JsonValue::Str(s("fetched 42 bytes"))),
            (s("bytes"), JsonValue::Number(s("42"))),
        ]),
        17,
    );
    assert!(r.ok);
    assert_eq!(r.call_id, s("abc123"));
    assert_eq!(r.elapsed_ms, 17);
    assert!(r.error.is_none());
    let j = r.to_json();
    assert_eq!(j.get(b"call_id").unwrap().as_str(), Some(&b"abc123"[..]));
    assert_eq!(j.get(b"ok").unwrap().as_bool(), Some(true));
    assert_eq!(j.get(b"elapsed_ms").unwrap().as_number(), Some(&b"17"[..]));
}

#[test]
fn tool_result_failure_contract() {
    let r = ToolResult::failure(b"xyz", b"NETWORK_TIMEOUT", b"Connection timed out after 10s", true);
    assert!(!r.ok);
    let e = r.error.as_ref().expect("failure must have error");
    assert_eq!(e.code, s("NETWORK_TIMEOUT"));
    assert_eq!(e.message, s("Connection timed out after 10s"));
    assert!(e.retryable);
    let j = r.to_json();
    assert_eq!(j.get(b"ok").unwrap().as_bool(), Some(false));
    let err = j.get(b"error").unwrap();
    assert_eq!(err.get(b"code").unwrap().as_str(), Some(&b"NETWORK_TIMEOUT"[..]));
    assert_eq!(err.get(b"retryable").unwrap().as_bool(), Some(true));
}

#[test]
fn tool_result_json_roundtrip() {
    let r = ToolResult::success(
        b"c99",
        json_object(vec![(
            s("results"),
            JsonValue::Array(vec![JsonValue::Str(s("item1")), JsonValue::Str(s("item2"))]),
        )]),
        5,
    );
    let text = r.to_json().to_json_string();
    let parsed = parse(&text).unwrap();
    assert_eq!(parsed.get(b"call_id").unwrap().as_str(), Some(&b"c99"[..]));
    let results = parsed.get(b"result").unwrap().get(b"results").unwrap().as_array().unwrap();
    assert_eq!(results.len(), 2);
}

#[test]
fn tool_call_from_json_full() {
    let json = json_object(vec![
        (s("tool"), JsonValue::Str(s("memory.store"))),
        (
            s("args"),
            json_object(vec![
                (s("content"), JsonValue::Str(s("phase D starts today"))),
                (s("wing"), JsonValue::Str(s("genos"))),
                (s("hall"), JsonValue::Str(s("events"))),
            ]),
        ),
        (s("call_id"), JsonValue::Str(s("call_001"))),
    ]);
    let call = ToolCall::from_json(&json, b"session_abc").expect("should parse");
    assert_eq!(call.tool, s("memory.store"));
    assert_eq!(call.call_id, s("call_001"));
    assert_eq!(call.session_id, s("session_abc"));
    assert_eq!(call.args.get(b"content").unwrap().as_str(), Some(&b"phase D starts today"[..]));
}

#[test]
fn tool_call_defaults_and_rejections() {
    let json = json_object(vec![(s("tool"), JsonValue::Str(s("sys.clock")))]);
    let call = ToolCall::from_json(&json, b"s").unwrap();
    assert_eq!(call.call_id, s("auto"));
    assert_eq!(call.args.as_object().unwrap().len(), 0);
    let bad = json_object(vec![(s("tool"), JsonValue::Bool(true))]);
    assert!(ToolCall::from_json(&bad, b"s").is_none());
    assert!(ToolCall::from_json(&JsonValue::Null, b"s").is_none());
}

#[test]
fn classify_covers_all_halls() {
    let h = classify_hall(
        b"I prefer to have dark mode everywhere",
        b"Noted, I'll remember your dark mode preference.",
    );
    assert!(matches!(h, Hall::Preferences | Hall::Facts));
    let h = classify_hall(
        b"I deployed the new build to QEMU just now",
        b"Deployment successful, genos booted correctly.",
    );
    assert!(matches!(h, Hall::Events | Hall::Facts));
    let h = classify_hall(
        b"I found that the tokenizer allocates 2x expected memory",
        b"Interesting finding, the tokenizer indeed uses extra allocations.",
    );
    assert!(matches!(h, Hall::Discoveries | Hall::Facts));
}

#[test]
fn format_status_header_contains_session_info() {
    let wall = WallTime { year: 2026, month: 4, day: 9, hour: 12, minute: 0, second: 0 };
    let mem = MemInfo { free_kb: 1024 * 512, total_kb: 1024 * 1024 };
    let header = format_status_header(b"sess_abc123", 7, 2048, 8192, Some(wall), mem);
    assert!(contains(&header, "sess_abc123"));
    assert!(contains(&header, "7"));
    assert!(contains(&header, "2048") || contains(&header, "8192") || contains(&header, "context"));
    assert_eq!(
        header,
        s("[Session: sess_abc123 | 2026-04-09T12:00:00Z | Turn: 7 | Context: 2048/8192t | RAM: 512MB]")
    );
    let unknown = format_status_header(b"s", 0, 0, 0, None, mem);
    assert!(contains(&unknown, "unknown"));
}

#[test]
fn facts_render_and_parse_back() {
    let facts = vec![(s("os_name"), s("genos")), (s("current_phase"), s("D"))];
    let text = render_facts(&facts);
    let back = parse_facts_kv(&text);
    assert_eq!(back, facts);
}
