use genos::compact::{estimate_tokens, scan_for_facts, ContextHistory};
use genos::consolidate::{extract_facts, Consolidator};
use genos::executor::{dispatch, execute, ToolRoute};
use genos::hal::MemInfo;
use genos::palace::Hall;
use genos::json::{json_object, parse, JsonValue};
use genos::mcp_config::CredentialRef;
use genos::mcp_runtime::{host_error, remote_failure, required_string, status_name, McpRuntime};
use genos::mcp_client::ClientStatus;
use genos::mcp_execution::McpHostError;
use genos::mcp_security::{CredentialError, CredentialResolver, Secret};
use genos::mcp_transport::{HttpRequest, HttpResponse, HttpTransport, TransportError, TransportErrorKind};
use genos::mcp_wire::McpError;
use genos::policy::PolicyEngine;
use genos::registry::{ToolCall, ToolResult};
use genos::wakeup::{load, load_with_budget};

fn s(x: &str) -> Vec<u8> {
    x.as_bytes().to_vec()
}

fn contains(hay: &[u8], needle: &str) -> bool {
    hay.windows(needle.len()).any(|w| w == needle.as_bytes())
}

fn error_code(r: &ToolResult) -> Vec<u8> {
    r.error.as_ref().unwrap().code.clone()
}

struct Canned {
    sent: Vec<Vec<u8>>,
}

impl HttpTransport for Canned {
    fn send(&mut self, request: &HttpRequest) -> Result<HttpResponse, TransportError> {
        let method = request.header(b"Mcp-Method").unwrap().to_vec();
        self.sent.push(method.clone());
        let body: &[u8] = match method.as_slice() {
            b"server/discover" => br#"{"jsonrpc":"2.0","id":"demo-1","result":{"resultType":"complete","supportedVersions":["2026-07-28"],"capabilities":{"tools":{}}}}"#,
            b"tools/list" => br#"{"jsonrpc":"2.0","id":"demo-2","result":{"resultType":"complete","tools":[{"name":"echo","description":"Echo","inputSchema":{"type":"object"}}]}}"#,
            b"tools/call" => br#"{"jsonrpc":"2.0","id":"demo-3","result":{"resultType":"complete","answer":"hi","token":"secret-value"}}"#,
            _ => {
                return Err(TransportError { kind: TransportErrorKind::Connect, message: s("refused"), retryable: true, status: None })
            }
        };
        Ok(HttpResponse { status: 200, headers: Vec::new(), body: body.to_vec() })
    }
}

struct NoSecrets;

impl CredentialResolver for NoSecrets {
    fn resolve(&mut self, _reference: &CredentialRef) -> Result<Secret, CredentialError> {
        Err(CredentialError { message: String::from("no credentials here") })
    }
}

const CONFIG: &[u8] = br#"
[[servers]]
id = "demo"
endpoint = "http://127.0.0.1:8787/mcp"
trust = "trusted"
require_approval = false

[[servers]]
id = "locked"
endpoint = "https://locked.example/mcp"
auth = "bearer"
credential_ref = "env:LOCKED_TOKEN"
"#;

fn runtime() -> McpRuntime<Canned, NoSecrets> {
    McpRuntime::load(b"sess", Some(CONFIG), Canned { sent: Vec::new() }, NoSecrets)
}

#[test]
fn runtime_lists_configured_servers() {
    let rt = runtime();
    assert_eq!(rt.server_count(), 2);
    let r = rt.servers(b"c1");
    assert!(r.ok);
    let servers = r.result.get(b"servers").unwrap().as_array().unwrap();
    assert_eq!(servers.len(), 2);
    assert_eq!(servers[0].get(b"id").unwrap().as_str(), Some(&b"demo"[..]));
    assert_eq!(servers[0].get(b"status").unwrap().as_str(), Some(&b"configured"[..]));
    assert_eq!(servers[0].get(b"authenticated").unwrap().as_bool(), Some(false));
    assert_eq!(servers[1].get(b"authenticated").unwrap().as_bool(), Some(true));
    assert!(r.result.get(b"config_error").is_none());
}

#[test]
fn runtime_reports_invalid_configuration() {
    let rt: McpRuntime<Canned, NoSecrets> =
        McpRuntime::load(b"sess", Some(b"[[servers]]\nid = \"x\"\nbogus = 1\n"), Canned { sent: Vec::new() }, NoSecrets);
    assert_eq!(rt.server_count(), 0);
    let r = rt.servers(b"c1");
    let err = r.result.get(b"config_error").unwrap().as_str().unwrap();
    assert!(err.starts_with(b"line 3: "));
    let none: McpRuntime<Canned, NoSecrets> = McpRuntime::load(b"sess", None, Canned { sent: Vec::new() }, NoSecrets);
    assert_eq!(none.server_count(), 0);
    assert!(none.servers(b"c").result.get(b"config_error").is_none());
}

#[test]
fn runtime_refuses_incomplete_or_unknown_calls() {
    let mut rt = runtime();
    let r = rt.call(&json_object(vec![(s("server"), JsonValue::Str(s("demo")))]), b"c1", 0);
    assert_eq!(error_code(&r), s("invalid_args"));
    let r = rt.call(
        &json_object(vec![(s("server"), JsonValue::Str(s("demo"))), (s("name"), JsonValue::Str(s("echo")))]),
        b"c2",
        0,
    );
    assert_eq!(error_code(&r), s("unknown_tool"));
    let r = rt.connect(&json_object(vec![(s("server"), JsonValue::Str(s("nobody")))]), b"c3");
    assert_eq!(error_code(&r), s("unknown_server"));
    let r = rt.read_resource(&json_object(vec![(s("server"), JsonValue::Str(s("demo")))]), b"c4");
    assert_eq!(error_code(&r), s("invalid_args"));
}

#[test]
fn runtime_connects_lists_and_calls_with_redaction() {
    let mut rt = runtime();
    let r = rt.connect(&json_object(vec![(s("server"), JsonValue::Str(s("demo")))]), b"c1");
    assert!(r.ok, "connect failed: {:?}", r.error.as_ref().map(|e| String::from_utf8_lossy(&e.message).to_string()));
    assert_eq!(r.result.get(b"catalog_items").unwrap().as_number(), Some(&b"1"[..]));
    let listed = rt.tools(&JsonValue::Null, b"c2");
    let tools = listed.result.as_array().unwrap();
    assert_eq!(tools.len(), 1);
    assert_eq!(tools[0].get(b"name").unwrap().as_str(), Some(&b"mcp.demo.echo"[..]));
    let filtered = rt.tools(&json_object(vec![(s("server"), JsonValue::Str(s("other")))]), b"c3");
    assert_eq!(filtered.result.as_array().unwrap().len(), 0);
    let call = json_object(vec![
        (s("server"), JsonValue::Str(s("demo"))),
        (s("name"), JsonValue::Str(s("echo"))),
        (s("arguments"), json_object(vec![(s("q"), JsonValue::Str(s("x")))])),
    ]);
    let r = rt.call(&call, b"c4", 10);
    assert!(r.ok);
    assert_eq!(r.result.get(b"answer").unwrap().as_str(), Some(&b"hi"[..]));
    assert_eq!(r.result.get(b"token").unwrap().as_str(), Some(&b"[redacted]"[..]));
}

#[test]
fn runtime_reports_missing_credentials() {
    let mut rt = runtime();
    let r = rt.connect(&json_object(vec![(s("server"), JsonValue::Str(s("locked")))]), b"c1");
    assert!(!r.ok);
    assert_eq!(error_code(&r), s("credential_error"));
}

#[test]
fn runtime_helpers_map_errors() {
    assert_eq!(status_name(ClientStatus::LegacyAdapterRequired), "legacy_adapter_required");
    let args = json_object(vec![(s("server"), JsonValue::Str(s(""))), (s("uri"), JsonValue::Str(s("u")))]);
    assert!(required_string(&args, b"server").is_none());
    assert_eq!(required_string(&args, b"uri"), Some(&b"u"[..]));
    let r = host_error(b"c", McpHostError::UnknownTool(s("mcp.x.y")));
    assert_eq!(error_code(&r), s("unknown_tool"));
    assert_eq!(r.error.as_ref().unwrap().message, s("mcp.x.y"));
    let r = remote_failure(b"c", None);
    assert_eq!(r.error.as_ref().unwrap().message, s("MCP response had no result"));
    let r = remote_failure(b"c", Some(McpError::new(-1, b"boom")));
    assert_eq!(r.error.as_ref().unwrap().message, s("boom"));
}

#[test]
fn history_archives_oldest_turns_past_eighty_percent() {
    let mut h = ContextHistory::new(b"s1");
    h.record_turn(b"project_name = genos\nhello there", 10);
    h.record_turn(b"second turn text", 10);
    h.record_turn(b"third", 5);
    assert_eq!(h.total_tokens(), 25);
    let quiet = h.pre_compact(100);
    assert_eq!(quiet.freed, 0);
    assert!(quiet.archive.is_none());
    let out = h.pre_compact(20);
    assert!(out.freed > 0);
    let (path, text) = out.archive.unwrap();
    assert_eq!(path, s("\\palace\\sessions\\s1_overflow_1.txt"));
    assert!(text.starts_with(b"project_name = genos\nhello there\n"));
    assert_eq!(out.facts, vec![(s("project_name"), s("genos"))]);
    assert_eq!(h.total_tokens(), 25 - out.freed);
}

#[test]
fn token_estimate_and_fact_scan() {
    assert_eq!(estimate_tokens(b""), 0);
    assert_eq!(estimate_tokens(b"abcd"), 1);
    assert_eq!(estimate_tokens(b"abcde"), 2);
    let facts = scan_for_facts(b"  os_name = genos  \nbad key = no\nx=1\nmodel = a = b\n");
    assert_eq!(facts, vec![(s("os_name"), s("genos")), (s("model"), s("a = b"))]);
}

#[test]
fn wake_up_prompt_holds_identity_facts_and_manifest() {
    let facts = vec![(s("os_name"), s("genos"))];
    let state = load(b"sess_1", b"You are genos.", &facts);
    assert!(state.system_prompt.starts_with(b"You are genos.\n\nKnown facts:\nos_name = genos\n"));
    assert!(contains(&state.system_prompt, "Available tools:"));
    assert!(contains(&state.system_prompt, "Always respond helpfully and concisely."));
    assert_eq!(state.context_budget, 256);
    let empty = load_with_budget(b"s", 1000, b"id", &[]);
    assert!(contains(&empty.system_prompt, "No facts loaded yet."));
    assert_eq!(empty.context_budget, 1000);
    let mut st = load_with_budget(b"s", 100, b"id", &[]);
    assert!(!st.needs_pre_compact());
    st.advance_turn(81);
    assert_eq!(st.turn, 1);
    assert!(st.needs_pre_compact());
    let prefix = st.prompt_prefix(None, MemInfo { free_kb: 2048, total_kb: 4096 });
    assert!(contains(&prefix, "[Session: s | unknown | Turn: 1 | Context: 81/100t | RAM: 2MB]"));
}

#[test]
fn consolidation_extracts_facts_and_entries() {
    let mut c = Consolidator::new();
    assert!(!c.should_run(0));
    assert!(!c.should_run(19));
    assert!(c.should_run(20));
    let journal = br#"{"turn":3,"hall":"facts","input":"q","output":"os_name = genos\nnothing"}

not json
{"turn":4.5,"output":"x = 1"}
{"turn":5}
"#;
    let listing = vec![(s("sess"), 1usize, Hall::Events)];
    let pass = c.run(b"sess", 20, Some(journal), &listing);
    assert!(!c.should_run(21));
    assert_eq!(pass.journal_path, s("\\palace\\sessions\\sess.jsonl"));
    assert_eq!(pass.extracted, vec![(s("os_name"), s("genos")), (s("x"), s("1"))]);
    assert_eq!(pass.entries.len(), 2);
    assert_eq!(pass.entries[0], (s("q os_name = genos\nnothing"), s("facts"), 3));
    assert_eq!(pass.entries[1], (s(" x = 1"), s("events"), 4));
    assert_eq!(pass.archived, 0);
    let nothing = c.run(b"sess", 40, None, &listing);
    assert!(nothing.extracted.is_empty());
    assert_eq!(nothing.archived, 0);
    assert_eq!(extract_facts(b"k = \n = v\n").len(), 0);
}

#[test]
fn consolidation_archives_old_hall_entries() {
    let mut c = Consolidator::new();
    let listing = vec![
        (s("a"), 50usize, Hall::Facts),
        (s("a"), 99usize, Hall::Events),
        (s("b"), 100usize, Hall::Facts),
        (s("b"), 550usize, Hall::Advice),
    ];
    // before the threshold of 500 turns nothing is old
    assert!(c.archive_old_entries(499, &listing).is_empty());
    let old = c.archive_old_entries(600, &listing);
    assert_eq!(old, vec![(s("a"), 50, Hall::Facts), (s("a"), 99, Hall::Events)]);
    let pass = c.run(b"a", 600, Some(b""), &listing);
    assert_eq!(pass.archived, 2);
    assert_eq!(pass.to_archive, old);
}

#[test]
fn executor_checks_policy_then_routes() {
    let mut policy = PolicyEngine::new();
    let call = ToolCall { tool: s("fs.read"), args: JsonValue::Null, call_id: s("c1"), session_id: s("s") };
    assert_eq!(execute(&call, &mut policy).unwrap(), ToolRoute::FsRead);
    let delete = ToolCall { tool: s("fs.delete"), args: JsonValue::Null, call_id: s("c2"), session_id: s("s") };
    let refused = execute(&delete, &mut policy).unwrap_err();
    assert_eq!(error_code(&refused), s("approval_required"));
    let unknown = ToolCall { tool: s("web.nothing"), args: JsonValue::Null, call_id: s("c3"), session_id: s("s") };
    assert_eq!(error_code(&execute(&unknown, &mut policy).unwrap_err()), s("tool_disabled"));
    assert_eq!(error_code(&dispatch(b"mcp.call", b"c4").unwrap_err()), s("unknown_tool"));
    assert_eq!(dispatch(b"sys.clock", b"c5").unwrap(), ToolRoute::Clock);
    let _ = parse(b"{}");
}
