use genos::hal::{MemInfo, WallTime};
use genos::journal::TurnRecord;
use genos::json::{parse, JsonValue};
use genos::mcp_transport::{request_summary, Header, HttpRequest};
use genos::palace::{facts_from_bytes, render_facts, Hall};
use genos::sys::{tool_clock, tool_introspect};

fn s(x: &str) -> Vec<u8> {
    x.as_bytes().to_vec()
}

#[test]
fn turn_record_serialises_to_one_json_line() {
    let rec = TurnRecord {
        session_id: s("session_1"),
        turn: 3,
        timestamp: s("2026-01-01T00:00:00Z"),
        hall: Hall::Facts,
        input: s("hi"),
        output: s("my name = Ada"),
        tool_calls: vec![JsonValue::Bool(true)],
    };
    let line = rec.to_jsonl();
    assert!(!line.contains(&b'\n'));
    let v = parse(&line).unwrap();
    assert_eq!(v.get(b"turn").unwrap().as_number(), Some(&b"3"[..]));
    assert_eq!(v.get(b"hall").unwrap().as_str(), Some(&b"facts"[..]));
    assert_eq!(v.get(b"wing").unwrap().as_str(), Some(&b"general"[..]));
    assert_eq!(v.get(b"tool_calls").unwrap().as_array().unwrap().len(), 1);
    assert_eq!(rec.hall_text(), s("[Turn 3 | 2026-01-01T00:00:00Z | facts]\nUser: hi\nAssistant: my name = Ada\n"));
}

#[test]
fn request_summary_redacts_secrets() {
    let req = HttpRequest {
        url: s("https://mcp.example/rpc"),
        headers: vec![Header::public(b"Accept", b"application/json"), Header::sensitive(b"Authorization", b"Bearer tok123")],
        body: Vec::new(),
        timeout_ms: 1000,
        max_response_bytes: 1024,
    };
    assert_eq!(
        request_summary(&req),
        s("POST https://mcp.example/rpc headers=[Accept=application/json, Authorization=[redacted]]")
    );
}

#[test]
fn clock_and_introspection_replies() {
    let w = WallTime { year: 2026, month: 4, day: 9, hour: 12, minute: 0, second: 5 };
    let r = tool_clock(b"c", Some(w), 42);
    assert_eq!(r.result.get(b"iso8601").unwrap().as_str(), Some(&b"2026-04-09T12:00:05Z"[..]));
    assert_eq!(r.result.get(b"uptime_ms").unwrap().as_number(), Some(&b"42"[..]));
    let e = tool_clock(b"c", None, 0).error.unwrap();
    assert_eq!(e.code, s("clock_error"));
    assert!(e.retryable);
    let i = tool_introspect(b"c", 7, MemInfo { free_kb: 10, total_kb: 20 });
    assert_eq!(i.result.get(b"vocab_size").unwrap().as_number(), Some(&b"32000"[..]));
    assert_eq!(i.result.get(b"ram_total_kb").unwrap().as_number(), Some(&b"20"[..]));
}

#[test]
fn stored_facts_read_back_unchanged() {
    let facts = vec![(s("name"), s("Ada")), (s("lang"), s("Rust = fast"))];
    let text = render_facts(&facts);
    assert_eq!(facts_from_bytes(&text), facts);
}
