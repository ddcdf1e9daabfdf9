use genos::bridge::{
    error_body, find_bytes, forward_plan, json_escape, legacy_initialize_request, parse_request_head,
    plan_connection, response_for, response_head, split_words, translate_legacy_discovery, validate_origin,
    validate_routing_headers, without_modern_metadata, after_initialize, BridgeAction, InitOutcome, PeerStep,
    StdioMode,
};
use genos::json::parse;
use genos::mcp_wire::{McpError, RequestId, RpcRequest, RpcResponse, LATEST_PROTOCOL_VERSION};

fn s(x: &str) -> Vec<u8> {
    x.as_bytes().to_vec()
}

#[test]
fn routing_headers_must_match_body() {
    let value = parse(br#"{"jsonrpc":"2.0","id":1,"method":"tools/call","params":{"name":"search","_meta":{"io.modelcontextprotocol/protocolVersion":"2026-07-28","io.modelcontextprotocol/clientInfo":{"name":"genos","version":"1"},"io.modelcontextprotocol/clientCapabilities":{}}}}"#).unwrap();
    let request = RpcRequest::from_json(&value).unwrap();
    let headers = vec![
        (s("mcp-method"), s("tools/call")),
        (s("mcp-name"), s("other")),
        (s("mcp-protocol-version"), s("2026-07-28")),
    ];
    assert!(validate_routing_headers(&headers, &request).is_err());
    let good = vec![
        (s("mcp-method"), s("tools/call")),
        (s("mcp-name"), s("search")),
        (s("mcp-protocol-version"), s("2026-07-28")),
    ];
    assert!(validate_routing_headers(&good, &request).is_ok());
    let missing = vec![(s("mcp-method"), s("tools/call"))];
    assert_eq!(validate_routing_headers(&missing, &request).unwrap_err(), s("MCP-Protocol-Version header is required"));
}

#[test]
fn legacy_initialization_is_structurally_valid() {
    let request = legacy_initialize_request();
    assert_eq!(request.method, s("initialize"));
    assert_eq!(request.params.get(b"protocolVersion").unwrap().as_str(), Some(&b"2025-11-25"[..]));
    assert!(request.params.get(b"_meta").is_none());
}

#[test]
fn legacy_discovery_is_adapted_to_modern_shape() {
    let legacy = parse(br#"{"protocolVersion":"2025-11-25","capabilities":{"tools":{}},"serverInfo":{"name":"legacy","version":"1"}}"#).unwrap();
    let response = translate_legacy_discovery(RequestId::Number(7), &legacy);
    let result = response.result.unwrap();
    assert_eq!(
        result.get(b"supportedVersions").unwrap().as_array().unwrap()[0].as_str(),
        Some(LATEST_PROTOCOL_VERSION.as_bytes())
    );
    assert!(result.get(b"capabilities").unwrap().get(b"tools").is_some());
    assert!(result.get(b"_meta").unwrap().get(b"io.modelcontextprotocol/serverInfo").is_some());
}

#[test]
fn legacy_forwarding_removes_only_modern_metadata() {
    let value = parse(br#"{"jsonrpc":"2.0","id":1,"method":"tools/call","params":{"name":"search","arguments":{"q":"mcp"},"_meta":{"io.modelcontextprotocol/protocolVersion":"2026-07-28"}}}"#).unwrap();
    let request = RpcRequest::from_json(&value).unwrap();
    let forwarded = without_modern_metadata(&request);
    assert!(forwarded.params.get(b"_meta").is_none());
    assert_eq!(forwarded.params.get(b"name").unwrap().as_str(), Some(&b"search"[..]));
    assert!(forwarded.params.get(b"arguments").is_some());
    match forward_plan(StdioMode::Legacy, &request) {
        PeerStep::Send(q) => assert!(q.params.get(b"_meta").is_none()),
        PeerStep::Discover => panic!("a tool call is not a discovery"),
    }
    match forward_plan(StdioMode::Modern, &request) {
        PeerStep::Send(q) => assert!(q.params.get(b"_meta").is_some()),
        PeerStep::Discover => panic!("a tool call is not a discovery"),
    }
}

#[test]
fn request_heads_are_parsed_and_checked() {
    let data = b"POST /mcp HTTP/1.1\r\nHost: 127.0.0.1\r\nContent-Length: 12\r\nMcp-Method : tools/list\r\n\r\n{\"a\":1}";
    let end = find_bytes(data, b"\r\n\r\n").unwrap();
    let head = parse_request_head(&data[..end]).unwrap();
    assert_eq!(head.method, s("POST"));
    assert_eq!(head.path, s("/mcp"));
    assert_eq!(head.content_length, 12);
    assert!(head.headers.iter().any(|(k, v)| k == &s("mcp-method") && v == &s("tools/list")));
    assert_eq!(parse_request_head(b"GET /x HTTP/1.0").unwrap_err(), s("expected HTTP/1.1 request"));
    assert_eq!(parse_request_head(b"GET").unwrap_err(), s("HTTP path is missing"));
    assert_eq!(parse_request_head(b"").unwrap_err(), s("request line is missing"));
    assert_eq!(parse_request_head(b"GET / HTTP/1.1\r\nbroken").unwrap_err(), s("malformed HTTP header"));
    assert_eq!(parse_request_head(b"GET / HTTP/1.1\r\ncontent-length: x").unwrap_err(), s("invalid Content-Length"));
    assert_eq!(parse_request_head(b"GET / HTTP/1.1\r\ncontent-length: +9999999").unwrap_err(), s("request body exceeded 4 MiB"));
    assert_eq!(parse_request_head(b"GET / HTTP/1.1\r\ncontent-length: +7").unwrap().content_length, 7);
    assert_eq!(split_words(b"  a \t bc  d ").len(), 3);
}

#[test]
fn connections_are_routed() {
    let health = parse_request_head(b"GET /healthz HTTP/1.1").unwrap();
    assert!(matches!(plan_connection(&health, b"").unwrap(), BridgeAction::Health));
    let other = parse_request_head(b"GET /mcp HTTP/1.1").unwrap();
    assert!(matches!(plan_connection(&other, b"").unwrap(), BridgeAction::NotFound));
    let foreign = parse_request_head(b"POST /mcp HTTP/1.1\r\nOrigin: http://evil.example").unwrap();
    assert_eq!(plan_connection(&foreign, b"{}").unwrap_err(), s("Origin is not allowed"));
    let local = parse_request_head(b"POST /mcp HTTP/1.1\r\nOrigin: http://localhost").unwrap();
    assert!(validate_origin(&local.headers).is_ok());
    assert_eq!(plan_connection(&local, b"nope").unwrap_err(), s("request body must be JSON"));
    assert_eq!(plan_connection(&local, &[0xff]).unwrap_err(), s("request body must be UTF-8"));
    let body = br#"{"jsonrpc":"2.0","id":1,"method":"ping","params":{"_meta":{"io.modelcontextprotocol/protocolVersion":"2026-07-28"}}}"#;
    let routed = parse_request_head(b"POST /mcp HTTP/1.1\r\nMCP-Protocol-Version: 2026-07-28\r\nMcp-Method: ping").unwrap();
    match plan_connection(&routed, body).unwrap() {
        BridgeAction::Forward(q) => assert_eq!(q.method, s("ping")),
        _ => panic!("expected a forwarded request"),
    }
}

#[test]
fn replies_are_framed() {
    assert_eq!(json_escape(br#"a"b\c"#), s(r#"a\"b\\c"#));
    assert_eq!(error_body(b"not_found", b"expected POST /mcp"), s(r#"{"error":{"code":"not_found","message":"expected POST /mcp"}}"#));
    assert_eq!(
        response_head(404, b"application/json", 3),
        s("HTTP/1.1 404 Not Found\r\nContent-Type: application/json\r\nContent-Length: 3\r\nConnection: close\r\nX-Content-Type-Options: nosniff\r\n\r\n")
    );
}

#[test]
fn stdio_replies_are_matched_and_initialize_classified() {
    let id = RequestId::Text(s("r1"));
    assert!(response_for(br#"{"jsonrpc":"2.0","method":"notifications/progress"}"#, &id).is_none());
    assert!(response_for(br#"{"jsonrpc":"2.0","id":"r2","result":{}}"#, &id).is_none());
    assert!(response_for(b"  {\"jsonrpc\":\"2.0\",\"id\":\"r1\",\"result\":{}}\r", &id).is_some());
    let legacy = RpcResponse::success(RequestId::Number(1), parse(br#"{"protocolVersion":"2025-11-25"}"#).unwrap());
    assert!(matches!(after_initialize(&id, &legacy), InitOutcome::Legacy(_)));
    let modern = RpcResponse::failure(RequestId::Number(1), McpError::method_not_found(b"initialize"));
    assert!(matches!(after_initialize(&id, &modern), InitOutcome::Modern));
    let odd = RpcResponse::success(RequestId::Number(1), parse(b"{}").unwrap());
    match after_initialize(&id, &odd) {
        InitOutcome::Failed(q) => assert_eq!(q.error.unwrap().message, s("legacy initialization was malformed")),
        _ => panic!("expected a failed discovery"),
    }
}
