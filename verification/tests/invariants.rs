use genos::graph::EntityGraph;
use genos::hal::InputHistory;
use genos::http::{text_body, NetError};
use genos::json::parse;
use genos::kv_cache::QJLKVCache;
use genos::mcp_config::{CredentialRef, McpConfig, ServerConfig, TrustLevel};
use genos::mcp_primitives::Tool;
use genos::mcp_runtime::{page_step, PageStep, MAX_CATALOG_PAGES};
use genos::mcp_security::{AuditEvent, AuditLog, PolicyDecision, PolicyFirewall, ResolvedAuth, Secret};
use genos::registry::ToolRegistry;
use genos::wakeup::{load, load_with_budget};
use genos::web::strip_html;

fn s(x: &str) -> Vec<u8> {
    x.as_bytes().to_vec()
}

#[test]
fn page_step_follows_cursor_until_limit() {
    assert!(matches!(page_step(1, None), PageStep::Done));
    match page_step(1, Some(b"next")) {
        PageStep::Next(c) => assert_eq!(c, b"next".to_vec()),
        _ => panic!("expected the next page"),
    }
    assert!(matches!(page_step(MAX_CATALOG_PAGES, Some(b"next")), PageStep::LimitReached));
    assert!(matches!(page_step(MAX_CATALOG_PAGES, None), PageStep::Done));
    assert!(matches!(page_step(MAX_CATALOG_PAGES - 1, Some(b"c")), PageStep::Next(_)));
}

#[test]
fn text_body_requires_utf8() {
    assert_eq!(text_body(Ok(s("héllo"))), Ok(s("héllo")));
    assert_eq!(text_body(Ok(vec![0xff, 0xfe])), Err(NetError::ParseError));
    assert_eq!(text_body(Err(NetError::Timeout)), Err(NetError::Timeout));
}

#[test]
fn default_registry_describes_each_tool() {
    let reg = ToolRegistry::default_registry();
    let delete = reg.find(b"fs.delete").unwrap();
    assert_eq!(delete.description, "Delete a file");
    assert_eq!(delete.params, &[("path", "file path")]);
    let write = reg.find(b"fs.write").unwrap();
    assert_eq!(write.description, "Write content to file");
    assert_eq!(write.params, &[("path", "file path"), ("content", "data to write")]);
    let clock = reg.find(b"sys.clock").unwrap();
    assert!(clock.params.is_empty());
}

#[test]
fn wake_loaders_give_the_same_prompt() {
    let facts = vec![(s("os"), s("genos"))];
    let a = load(b"s1", b"I am genos.", &facts);
    let b = load_with_budget(b"s1", 4096, b"I am genos.", &facts);
    assert_eq!(a.system_prompt, b.system_prompt);
    assert_eq!(b.context_budget, 4096);
    assert_eq!(a.context_budget, 256);
}

#[test]
fn history_keeps_no_empty_line_and_no_repeat() {
    let mut h = InputHistory::new(2);
    h.push(b"a");
    h.push(b"");
    h.push(b"b");
    h.push(b"b");
    h.push(b"c");
    assert_eq!(h.prev(), Some(&b"c"[..]));
    assert_eq!(h.prev(), Some(&b"b"[..]));
    assert_eq!(h.prev(), None);
}

#[test]
fn new_and_reset_kv_cache_hold_no_bytes() {
    let mut cache = QJLKVCache::new(2, &[4, 4], &[0, 0], 8);
    assert_eq!(cache.layers.len(), 2);
    assert_eq!(cache.memory_bytes(), 0);
    cache.layers[0].store_packed(1, vec![1, 2, 3], vec![4, 5]);
    assert_eq!(cache.memory_bytes(), 5);
    cache.reset();
    assert_eq!(cache.memory_bytes(), 0);
}

#[test]
fn timeline_is_in_start_order() {
    let mut g = EntityGraph::new();
    g.add(b"genos", b"version", b"v3", b"2025-03-01");
    g.add(b"genos", b"version", b"v1", b"2024-01-01");
    g.add(b"genos", b"version", b"v2", b"2024-06-01");
    let t = g.timeline(b"genos");
    assert_eq!(t.len(), 3);
    for w in t.windows(2) {
        assert!(w[0].valid_from <= w[1].valid_from);
    }
}

#[test]
fn every_chunk_has_text_and_its_estimate() {
    let chunks = strip_html(b"<h1>Title</h1><p>  </p><p>Some body text here</p><script>x()</script>");
    assert!(!chunks.is_empty());
    for c in &chunks {
        assert!(!c.text.is_empty());
        assert_eq!(c.tokens_estimate, (c.text.len() + 3) / 4);
    }
}

fn open_server() -> ServerConfig {
    let mut config = McpConfig::parse(
        br#"
        [[servers]]
        id = "demo"
        endpoint = "https://example.com/mcp"
        auth = "none"
        "#,
    )
    .unwrap();
    let mut server = config.servers.remove(0);
    server.trust = TrustLevel::Trusted;
    server.require_approval = false;
    server
}

fn plain_tool() -> Tool {
    Tool {
        name: s("read"),
        title: None,
        description: None,
        input_schema: parse(br#"{"type":"object"}"#).unwrap(),
        output_schema: None,
        annotations: None,
    }
}

#[test]
fn firewall_limits_calls_per_turn_across_calls() {
    let server = open_server();
    let args = parse(b"{}").unwrap();
    let mut fw = PolicyFirewall::new();
    for _ in 0..10 {
        assert_eq!(fw.check_tool(&server, &plain_tool(), &args, None, 0), PolicyDecision::Allow);
        fw.record_result(b"demo", true, 0);
    }
    assert_eq!(fw.check_tool(&server, &plain_tool(), &args, None, 0), PolicyDecision::RateLimited);
    assert_eq!(fw.check_tool(&server, &plain_tool(), &args, None, 0), PolicyDecision::RateLimited);
    fw.reset_turn();
    assert_eq!(fw.check_tool(&server, &plain_tool(), &args, None, 0), PolicyDecision::Allow);
}

fn event(n: u64) -> AuditEvent {
    AuditEvent { timestamp_ms: n, server_id: s("demo"), operation: s("call"), decision: s("allow"), request_id: None }
}

#[test]
fn audit_log_stays_within_capacity() {
    let mut log = AuditLog::new(2);
    log.record(event(1));
    log.record(event(2));
    log.record(event(3));
    assert_eq!(log.events().len(), 2);
    assert_eq!(log.events()[0].timestamp_ms, 2);
    assert_eq!(log.events().last().unwrap().timestamp_ms, 3);
    let mut zero = AuditLog::new(0);
    zero.record(event(1));
    zero.record(event(2));
    assert_eq!(zero.events().len(), 1);
    assert_eq!(zero.events()[0].timestamp_ms, 2);
}

#[test]
fn settings_text_reads_back_as_written() {
    let c = genos::sysconfig::SystemConfig::default_config();
    let text = c.to_toml();
    let back = genos::sysconfig::SystemConfig::parse(&text);
    assert_eq!(back.values, c.values);
    let custom = genos::sysconfig::SystemConfig::parse(b"[net]\nproxy = \"http://x\"\n[ui]\ndark mode = true\ntitle = \"a # b\"\n");
    let again = genos::sysconfig::SystemConfig::parse(&custom.to_toml());
    assert_eq!(again.values, custom.values);
    assert_eq!(custom.values.len(), 3);
}

#[test]
fn credential_locator_of_unicode_space_is_empty() {
    assert_eq!(CredentialRef::parse("env:\u{a0}".as_bytes()).unwrap_err(), "credential_ref locator cannot be empty");
    assert_eq!(CredentialRef::parse("env: \u{3000} ".as_bytes()).unwrap_err(), "credential_ref locator cannot be empty");
    assert!(CredentialRef::parse(b"env:MCP_TOKEN").is_ok());
}

#[test]
fn credentials_print_redacted() {
    assert_eq!(Secret::new(s("hunter2")).redacted_text(), s("Secret([redacted])"));
    assert_eq!(ResolvedAuth::none().redacted_text(), s("ResolvedAuth { headers: \"[redacted]\" }"));
}

#[test]
fn chunks_hold_no_markup() {
    let chunks = strip_html(b"<html><body><p class=\"x\">a > b</p><script>if (a < b) {}</script><div>end</div></body></html>");
    assert!(!chunks.is_empty());
    for c in &chunks {
        assert!(!c.text.contains(&b'<'));
        assert!(!String::from_utf8_lossy(&c.text).contains("if (a"));
    }
}

#[test]
fn parsed_settings_keep_keys_in_order() {
    let c = genos::sysconfig::SystemConfig::parse(b"[z]\nb = 1\n[a]\nc = 2\nb = 3\n[z]\nb = 4\n");
    let keys: Vec<Vec<u8>> = c.values.iter().map(|p| p.0.clone()).collect();
    assert_eq!(keys, vec![s("a.b"), s("a.c"), s("z.b")]);
    assert_eq!(c.values[2].1, s("4"));
}
