use genos::json::{empty_object, json_object, parse, JsonValue};
use genos::mcp_client::{ClientManager, ClientStatus, Discovery};
use genos::mcp_config::{AuthConfig, CredentialRef, McpConfig, ServerConfig, TransportKind, TrustLevel};
use genos::mcp_execution::{CallOutcome, Continuation, ListKind};
use genos::mcp_primitives::{split_namespaced, Catalog, Page, ServerCatalog, Tool};
use genos::mcp_security::{ApprovalGrant, GuardedResult, PolicyDecision, PolicyFirewall, Provenance};
use genos::mcp_server::{McpServer, McpService, RoutingMetadata, ServerCapabilities, ServerInfo};
use genos::mcp_wire::{
    ClientIdentity, McpError, RequestId, RequestMetadata, RpcRequest, RpcResponse,
    LATEST_PROTOCOL_VERSION,
};
use genos::mcp_transport::{build_http_request, decode_http_response, Header, HttpResponse, TransportErrorKind};
use genos::method;

fn s(x: &str) -> Vec<u8> {
    x.as_bytes().to_vec()
}

fn contains(hay: &[u8], needle: &str) -> bool {
    hay.windows(needle.len()).any(|w| w == needle.as_bytes())
}

#[test]
fn parses_multiple_provider_neutral_servers() {
    let config = McpConfig::parse(
        br#"
        [defaults]
        timeout_ms = 9000
        require_approval = true

        [[servers]]
        id = "search"
        endpoint = "https://mcp.example.com/mcp"
        auth = "bearer"
        credential_ref = "env:SEARCH_TOKEN"
        allowed_tools = ["search", "fetch"]

        [[servers]]
        id = "local"
        transport = "stdio_bridge"
        endpoint = "http://127.0.0.1:8787/mcp"
        trust = "read_only"
        "#,
    )
    .unwrap();
    assert_eq!(config.servers.len(), 2);
    assert_eq!(config.servers[0].timeout_ms, 9000);
    assert_eq!(config.servers[0].namespaced(b"search"), s("mcp.search.search"));
    assert!(matches!(config.servers[0].auth, AuthConfig::Bearer { .. }));
    assert_eq!(config.servers[1].transport, TransportKind::StdioBridge);
    assert_eq!(config.servers[1].trust, TrustLevel::ReadOnly);
}

#[test]
fn rejects_inline_credentials_and_duplicate_ids() {
    assert!(CredentialRef::parse(b"secret-token-without-source").is_err());
    let duplicate = br#"
        [[servers]]
        id = "same"
        endpoint = "https://one.example/mcp"
        [[servers]]
        id = "same"
        endpoint = "https://two.example/mcp"
    "#;
    assert!(McpConfig::parse(duplicate).is_err());
}

#[test]
fn config_rejects_unknown_keys_and_bad_values() {
    assert!(McpConfig::parse(b"[[servers]]\nid = \"a\"\nendpoint = \"https://a/mcp\"\ncolour = \"red\"\n").is_err());
    assert!(McpConfig::parse(b"[defaults]\ntimeout_ms = \"slow\"\n").is_err());
    let ok = McpConfig::parse(b"# comment only\n").unwrap();
    assert!(ok.servers.is_empty());
}

#[test]
fn parses_and_orders_tool_catalogs() {
    let result = parse(
        br#"{
            "resultType":"complete",
            "tools":[
                {"name":"zeta","inputSchema":{"type":"object"}},
                {"name":"alpha","description":"first","inputSchema":{"type":"object"}}
            ],
            "ttlMs":60000,
            "cacheScope":"private"
        }"#,
    )
    .unwrap();
    let page = Page::<Tool>::tools(&result).unwrap();
    let mut server = ServerCatalog::new(b"demo");
    server.tools = page.items;
    server.ttl_ms = page.ttl_ms;
    server.cache_scope = page.cache_scope;
    let mut catalog = Catalog::new();
    catalog.replace(server);
    let tools = catalog.tools();
    assert_eq!(tools[0].exposed_name, s("mcp.demo.alpha"));
    assert_eq!(tools[1].exposed_name, s("mcp.demo.zeta"));
    assert_eq!(catalog.resolve_tool(b"mcp.demo.alpha").unwrap().1.name, s("alpha"));
}

#[test]
fn rejects_malformed_descriptors() {
    let missing_schema = parse(br#"{"name":"unsafe"}"#).unwrap();
    assert!(Tool::from_json(&missing_schema).is_err());
    assert!(split_namespaced(b"plain.tool").is_none());
}

#[test]
fn namespaced_names_split_back() {
    let (server, tool) = split_namespaced(b"mcp.demo.search.v2").unwrap();
    assert_eq!(server, b"demo");
    assert_eq!(tool, b"search.v2");
    assert!(split_namespaced(b"mcp..x").is_none());
}

#[test]
fn modern_request_is_self_contained() {
    let metadata = RequestMetadata::modern(ClientIdentity::genos());
    let request = RpcRequest::discover(RequestId::Number(1), &metadata);
    assert_eq!(request.protocol_version(), Some(LATEST_PROTOCOL_VERSION.as_bytes()));
    assert_eq!(request.method, s(method::SERVER_DISCOVER));
    assert!(contains(&request.to_json_string(), "clientCapabilities"));
}

#[test]
fn parses_error_response() {
    let json = parse(br#"{"jsonrpc":"2.0","id":"a","error":{"code":-32022,"message":"unsupported"}}"#)
        .unwrap();
    let response = RpcResponse::from_json(&json).unwrap();
    assert_eq!(response.error.unwrap().code, McpError::UNSUPPORTED_PROTOCOL_VERSION);
}

#[test]
fn response_needs_exactly_one_of_result_and_error() {
    let both = parse(br#"{"jsonrpc":"2.0","id":1,"result":{},"error":{"code":1,"message":"x"}}"#).unwrap();
    assert_eq!(RpcResponse::from_json(&both).unwrap_err().code, McpError::INVALID_REQUEST);
    let neither = parse(br#"{"jsonrpc":"2.0","id":1}"#).unwrap();
    assert!(RpcResponse::from_json(&neither).is_err());
}

fn manager() -> ClientManager {
    let config = McpConfig::parse(
        br#"
        [[servers]]
        id = "one"
        endpoint = "https://one.example/mcp"
        [[servers]]
        id = "two"
        endpoint = "https://two.example/mcp"
        enabled = false
        "#,
    )
    .unwrap();
    ClientManager::from_config(&config)
}

#[test]
fn creates_exactly_one_client_per_server() {
    let manager = manager();
    assert_eq!(manager.len(), 2);
    assert_eq!(manager.client(b"one").unwrap().status, ClientStatus::Configured);
    assert_eq!(manager.client(b"two").unwrap().status, ClientStatus::Disabled);
    assert!(manager.client(b"three").is_none());
}

#[test]
fn discovery_selects_modern_protocol_and_capabilities() {
    let mut manager = manager();
    let client = manager.client_mut(b"one").unwrap();
    let request = client.discover_request().unwrap();
    let result = parse(
        br#"{
          "resultType":"complete",
          "supportedVersions":["2026-07-28","2025-11-25"],
          "capabilities":{"tools":{},"resources":{}},
          "_meta":{"io.modelcontextprotocol/serverInfo":{"name":"demo","version":"1"}}
        }"#,
    )
    .unwrap();
    client.accept_discovery(&RpcResponse::success(request.id, result)).unwrap();
    assert_eq!(client.status, ClientStatus::Ready);
    let requests = client.list_requests().unwrap();
    assert_eq!(requests.len(), 2);
    assert_eq!(requests[0].method, s(method::TOOLS_LIST));
    assert_eq!(requests[1].method, s(method::RESOURCES_LIST));
}

#[test]
fn legacy_server_is_kept_behind_adapter_boundary() {
    let mut manager = manager();
    let client = manager.client_mut(b"one").unwrap();
    let request = client.discover_request().unwrap();
    let result = parse(br#"{"resultType":"complete","supportedVersions":["2025-11-25"],"capabilities":{}}"#)
        .unwrap();
    client.accept_discovery(&RpcResponse::success(request.id, result)).unwrap();
    assert_eq!(client.status, ClientStatus::LegacyAdapterRequired);
    assert!(client.list_requests().is_err());
}

#[test]
fn disabled_client_refuses_discovery() {
    let mut manager = manager();
    let client = manager.client_mut(b"two").unwrap();
    assert!(client.discover_request().is_err());
    assert!(manager.client_mut(b"nobody").is_err());
}

fn ready_manager() -> ClientManager {
    let config = McpConfig::parse(
        br#"
        [[servers]]
        id = "demo"
        endpoint = "https://demo.example/mcp"
        "#,
    )
    .unwrap();
    let mut manager = ClientManager::from_config(&config);
    let client = manager.client_mut(b"demo").unwrap();
    client.status = ClientStatus::Ready;
    client.discovery = Some(Discovery {
        supported_versions: vec![s("2026-07-28")],
        selected_version: s("2026-07-28"),
        capabilities: parse(br#"{"tools":{}}"#).unwrap(),
        identity: None,
        instructions: None,
        ttl_ms: None,
    });
    manager
}

#[test]
fn ingests_pages_then_resolves_namespaced_call() {
    let mut manager = ready_manager();
    let first = parse(
        br#"{"resultType":"complete","tools":[{"name":"search","inputSchema":{"type":"object"}}],"nextCursor":"p2"}"#,
    )
    .unwrap();
    let cursor = manager
        .ingest_list_page(b"demo", ListKind::Tools, &RpcResponse::success(RequestId::Number(1), first), 100, true)
        .unwrap();
    assert_eq!(cursor, Some(s("p2")));
    let arguments = parse(br#"{"q":"genos"}"#).unwrap();
    let (invocation, request) = manager.plan_tool_call(b"mcp.demo.search", arguments).unwrap();
    assert_eq!(invocation.tool_name, s("search"));
    assert_eq!(request.method, s(method::TOOLS_CALL));
}

#[test]
fn parses_input_required_and_resumes_with_explicit_state() {
    let response = parse(
        br#"{
          "resultType":"input_required",
          "inputRequests":{"confirm":{"type":"elicitation","message":"Continue?"}},
          "requestState":"opaque-state"
        }"#,
    )
    .unwrap();
    let outcome = CallOutcome::from_response(&RpcResponse::success(RequestId::Number(1), response)).unwrap();
    let mut manager = ready_manager();
    let request = manager
        .client_mut(b"demo")
        .unwrap()
        .request(method::TOOLS_CALL.as_bytes(), json_object(vec![(s("name"), JsonValue::Str(s("dangerous")))]))
        .unwrap();
    let continuation = Continuation::from_outcome(b"demo", &request, &outcome).unwrap();
    let resumed = continuation.resume(&mut manager, parse(br#"{"confirm":true}"#).unwrap()).unwrap();
    assert_eq!(resumed.params.get(b"requestState").unwrap().as_str(), Some(&b"opaque-state"[..]));
    assert!(resumed.params.get(b"inputResponses").is_some());
}

#[test]
fn preserves_unknown_extension_result() {
    let result = parse(br#"{"resultType":"io.example/task","task":{"id":"42"}}"#).unwrap();
    let outcome = CallOutcome::from_response(&RpcResponse::success(RequestId::Number(1), result)).unwrap();
    assert!(matches!(outcome, CallOutcome::Extension(_)));
}

struct DemoService;

impl McpService for DemoService {
    fn info(&self) -> ServerInfo {
        ServerInfo { name: s("genos-demo"), version: s("1"), title: Some(s("GenOS Demo")) }
    }

    fn capabilities(&self) -> ServerCapabilities {
        ServerCapabilities { tools: true, resources: false, prompts: false }
    }

    fn tools(&self) -> Vec<Tool> {
        vec![Tool {
            name: s("echo"),
            title: None,
            description: Some(s("Echo arguments")),
            input_schema: json_object(vec![(s("type"), JsonValue::Str(s("object")))]),
            output_schema: None,
            annotations: None,
        }]
    }

    fn call_tool(&mut self, _name: &[u8], arguments: &JsonValue) -> Result<JsonValue, McpError> {
        Ok(json_object(vec![
            (s("resultType"), JsonValue::Str(s("complete"))),
            (s("structuredContent"), arguments.duplicate()),
        ]))
    }

    fn read_resource(&mut self, _uri: &[u8]) -> Result<JsonValue, McpError> {
        Err(McpError::method_not_found(method::RESOURCES_READ.as_bytes()))
    }

    fn get_prompt(&mut self, _name: &[u8], _arguments: &JsonValue) -> Result<JsonValue, McpError> {
        Err(McpError::method_not_found(method::PROMPTS_GET.as_bytes()))
    }
}

fn request(method_name: &str, params: JsonValue) -> RpcRequest {
    RpcRequest::new(
        RequestId::Number(1),
        method_name.as_bytes(),
        params,
        &RequestMetadata::modern(ClientIdentity::genos()),
    )
}

fn copy_request(r: &RpcRequest) -> RpcRequest {
    RpcRequest { id: r.id.duplicate(), method: r.method.clone(), params: r.params.duplicate() }
}

#[test]
fn discovers_and_lists_deterministically() {
    let mut server = McpServer::new(DemoService);
    let discover = request(method::SERVER_DISCOVER, empty_object());
    let routing = RoutingMetadata::from_request(&discover);
    let response = server.handle(copy_request(&discover), &routing);
    let result = response.result.unwrap();
    assert_eq!(
        result.get(b"supportedVersions").unwrap().as_array().unwrap()[0].as_str(),
        Some(LATEST_PROTOCOL_VERSION.as_bytes())
    );
    let list = request(method::TOOLS_LIST, empty_object());
    let routing = RoutingMetadata::from_request(&list);
    let response = server.handle(copy_request(&list), &routing);
    let result = response.result.unwrap();
    let first = &result.get(b"tools").unwrap().as_array().unwrap()[0];
    assert_eq!(first.get(b"name").unwrap().as_str(), Some(&b"echo"[..]));
}

#[test]
fn rejects_header_body_mismatch() {
    let mut server = McpServer::new(DemoService);
    let call = request(method::TOOLS_CALL, json_object(vec![(s("name"), JsonValue::Str(s("echo")))]));
    let mut routing = RoutingMetadata::from_request(&call);
    routing.name = Some(s("other"));
    let response = server.handle(call, &routing);
    assert_eq!(response.error.unwrap().code, McpError::INVALID_REQUEST);
}

#[test]
fn unknown_method_and_disabled_capability_are_not_found() {
    let mut server = McpServer::new(DemoService);
    let call = request("nothing/here", empty_object());
    let routing = RoutingMetadata::from_request(&call);
    assert_eq!(server.handle(call, &routing).error.unwrap().code, McpError::METHOD_NOT_FOUND);
    let call = request(method::PROMPTS_LIST, empty_object());
    let routing = RoutingMetadata::from_request(&call);
    assert_eq!(server.handle(call, &routing).error.unwrap().code, McpError::METHOD_NOT_FOUND);
}

fn demo_server() -> ServerConfig {
    let mut config = McpConfig::parse(
        br#"
        [[servers]]
        id = "demo"
        endpoint = "https://example.com/mcp"
        auth = "bearer"
        credential_ref = "env:MCP_TOKEN"
        "#,
    )
    .unwrap();
    config.servers.remove(0)
}

fn tool(annotations: Option<JsonValue>) -> Tool {
    Tool {
        name: s("write"),
        title: None,
        description: None,
        input_schema: parse(br#"{"type":"object"}"#).unwrap(),
        output_schema: None,
        annotations,
    }
}

#[test]
fn approval_is_bound_to_server_tool_arguments_and_expiry() {
    let server = demo_server();
    let arguments = parse(br#"{"path":"/data/a"}"#).unwrap();
    let grant = ApprovalGrant {
        server_id: server.id.clone(),
        tool_name: s("write"),
        exact_arguments: arguments.duplicate(),
        expires_at_ms: 100,
    };
    let mut firewall = PolicyFirewall::new();
    assert_eq!(
        firewall.check_tool(&server, &tool(None), &arguments, Some(&grant), 99),
        PolicyDecision::Allow
    );
    let changed = parse(br#"{"path":"/data/b"}"#).unwrap();
    assert!(matches!(
        firewall.check_tool(&server, &tool(None), &changed, Some(&grant), 99),
        PolicyDecision::ApprovalRequired { .. }
    ));
    assert!(matches!(
        firewall.check_tool(&server, &tool(None), &arguments, Some(&grant), 101),
        PolicyDecision::ApprovalRequired { .. }
    ));
}

#[test]
fn firewall_denies_non_object_arguments_and_opens_circuit() {
    let server = demo_server();
    let mut firewall = PolicyFirewall::new();
    assert!(matches!(
        firewall.check_tool(&server, &tool(None), &JsonValue::Null, None, 0),
        PolicyDecision::Deny { .. }
    ));
    for _ in 0..3 {
        firewall.record_result(b"demo", false, 1000);
    }
    let arguments = parse(br#"{}"#).unwrap();
    assert_eq!(
        firewall.check_tool(&server, &tool(None), &arguments, None, 1001),
        PolicyDecision::CircuitOpen
    );
}

#[test]
fn output_filter_redacts_secrets_and_labels_provenance() {
    let value = parse(br#"{"answer":"ok","access_token":"do-not-log","nested":{"password":"nope"}}"#).unwrap();
    let guarded = GuardedResult::filter(
        &value,
        Provenance { server_id: s("demo"), primitive: s("read"), trust: TrustLevel::Untrusted },
        4096,
    );
    assert_eq!(guarded.value.get(b"access_token").unwrap().as_str(), Some(&b"[redacted]"[..]));
    assert_eq!(
        guarded.value.get(b"nested").unwrap().get(b"password").unwrap().as_str(),
        Some(&b"[redacted]"[..])
    );
    assert!(guarded.untrusted_content);
    let small = GuardedResult::filter(
        &value,
        Provenance { server_id: s("demo"), primitive: s("read"), trust: TrustLevel::Trusted },
        4,
    );
    assert!(small.truncated);
    assert!(!small.untrusted_content);
}

fn plain_server(endpoint: &str) -> ServerConfig {
    ServerConfig {
        id: s("test"),
        transport: TransportKind::StreamableHttp,
        endpoint: s(endpoint),
        enabled: true,
        auth: AuthConfig::NoAuth,
        trust: TrustLevel::Untrusted,
        allow_tools: true,
        allow_resources: true,
        allow_prompts: true,
        require_approval: true,
        timeout_ms: 1000,
        max_response_bytes: 4096,
        allowed_tools: Vec::new(),
    }
}

#[test]
fn modern_http_request_has_routing_headers() {
    let metadata = RequestMetadata::modern(ClientIdentity::genos());
    let rpc = RpcRequest::new(
        RequestId::Number(7),
        method::TOOLS_CALL.as_bytes(),
        json_object(vec![(s("name"), JsonValue::Str(s("search")))]),
        &metadata,
    );
    let request = build_http_request(&plain_server("https://example.com/mcp"), &rpc, &[]).unwrap();
    assert_eq!(request.header(b"Mcp-Method"), Some(&b"tools/call"[..]));
    assert_eq!(request.header(b"mcp-name"), Some(&b"search"[..]));
    assert_eq!(request.header(b"MCP-Protocol-Version"), Some(LATEST_PROTOCOL_VERSION.as_bytes()));
    assert_eq!(request.body, rpc.to_json_string());
    assert_eq!(request.timeout_ms, 1000);
}

#[test]
fn refuses_remote_cleartext_and_header_injection() {
    let metadata = RequestMetadata::modern(ClientIdentity::genos());
    let rpc = RpcRequest::discover(RequestId::Number(1), &metadata);
    let error = build_http_request(&plain_server("http://example.com/mcp"), &rpc, &[]).unwrap_err();
    assert_eq!(error.kind, TransportErrorKind::InsecureEndpoint);
    let injected = Header::sensitive(b"Authorization", b"Bearer ok\r\nX-Evil: yes");
    assert!(build_http_request(&plain_server("https://example.com/mcp"), &rpc, &[injected]).is_err());
    assert!(build_http_request(&plain_server("http://127.0.0.1:8787/mcp"), &rpc, &[]).is_ok());
}

fn http_response(status: u16, content_type: Option<&str>, body: &[u8]) -> HttpResponse {
    let headers = match content_type {
        Some(ct) => vec![Header::public(b"content-type", ct.as_bytes())],
        None => Vec::new(),
    };
    HttpResponse { status, headers, body: body.to_vec() }
}

#[test]
fn decodes_json_rpc_replies_and_refuses_bad_ones() {
    let ok = http_response(200, Some("application/json; charset=utf-8"), br#"{"jsonrpc":"2.0","id":3,"result":{"x":1}}"#);
    let response = decode_http_response(&ok, 4096).unwrap();
    assert!(response.result.is_some());
    let big = http_response(200, None, &[b' '; 10]);
    assert_eq!(decode_http_response(&big, 4).unwrap_err().kind, TransportErrorKind::ResponseTooLarge);
    let busy = http_response(503, None, b"");
    let e = decode_http_response(&busy, 4096).unwrap_err();
    assert_eq!(e.kind, TransportErrorKind::HttpStatus);
    assert!(e.retryable);
    assert_eq!(e.status, Some(503));
    let html = http_response(200, Some("text/html"), b"<p>");
    assert_eq!(decode_http_response(&html, 4096).unwrap_err().kind, TransportErrorKind::UnsupportedContentType);
    let junk = http_response(200, None, &[0xff, 0xfe]);
    assert_eq!(decode_http_response(&junk, 4096).unwrap_err().message, s("MCP response was not UTF-8"));
    let not_json = http_response(200, None, b"nope");
    assert_eq!(decode_http_response(&not_json, 4096).unwrap_err().message, s("MCP response was not valid JSON"));
    let not_rpc = http_response(200, None, br#"{"jsonrpc":"1.0","id":1,"result":{}}"#);
    assert_eq!(decode_http_response(&not_rpc, 4096).unwrap_err().message, s("jsonrpc must be '2.0'"));
}
