//! The transport boundary of the MCP client: headers (with redaction of
//! sensitive values), HTTP request/response values, transport errors, and
//! the endpoint and header checks made before anything is sent.

use vstd::prelude::*;

use crate::http::{has_line_break, spec_valid_header_name, valid_header_name, contains_line_break};
use crate::json::{get_str, jopt, jparse, jtext, str_at, JModel, PStep, parse_checked};
use crate::mcp_config::ServerConfig;
use crate::mcp_server::request_version;
use crate::mcp_wire::{err_model, request_json, response_of, RidModel, RpcRequest, RpcResponse, LATEST_PROTOCOL_VERSION};
use crate::text::{ascii_bytes, bytes_eq, eq_ignore_ascii_case, find, find_byte, has_prefix, is_utf8, lemma_find_from, lit, lower_seq, starts_with, to_vec, trim, trim_bytes};

verus! {

/// An HTTP header; sensitive values are never shown.
#[derive(Debug, Clone, PartialEq, Eq)]
pub struct Header {
    pub name: Vec<u8>,
    pub value: Vec<u8>,
    pub sensitive: bool,
}

impl Header {
    pub fn public(name: &[u8], value: &[u8]) -> (r: Self)
        ensures
            r.name@ == name@,
            r.value@ == value@,
            !r.sensitive,
    {
        Header { name: to_vec(name), value: to_vec(value), sensitive: false }
    }

    pub fn sensitive(name: &[u8], value: &[u8]) -> (r: Self)
        ensures
            r.name@ == name@,
            r.value@ == value@,
            r.sensitive,
    {
        Header { name: to_vec(name), value: to_vec(value), sensitive: true }
    }

    /// A copy of the header.
    pub fn duplicate(&self) -> (r: Self)
        ensures
            r.name@ == self.name@,
            r.value@ == self.value@,
            r.sensitive == self.sensitive,
    {
        Header { name: to_vec(self.name.as_slice()), value: to_vec(self.value.as_slice()), sensitive: self.sensitive }
    }

    /// The value to display: `[redacted]` for sensitive headers.
    pub fn redacted_value(&self) -> (r: &[u8])
        ensures
            r@ == (if self.sensitive {
                lit("[redacted]")
            } else {
                self.value@
            }),
    {
        if self.sensitive {
            proof {
                reveal_strlit("[redacted]");
                vstd::string::is_ascii_spec_bytes("[redacted]");
            }
            let s: &'static str = "[redacted]";
            let b = s.as_bytes();
            assert(b@ =~= lit("[redacted]"));
            b
        } else {
            self.value.as_slice()
        }
    }
}

/// The value of the first header with this name, ignoring ASCII case.
pub open spec fn header_lookup(hs: Seq<Header>, name: Seq<u8>) -> Option<Seq<u8>>
    decreases hs.len(),
{
    if hs.len() == 0 {
        None
    } else if lower_seq(hs[0].name@) == lower_seq(name) {
        Some(hs[0].value@)
    } else {
        header_lookup(hs.drop_first(), name)
    }
}

/// Finds a header value by name, ignoring ASCII case.
pub fn find_header<'a>(headers: &'a [Header], name: &[u8]) -> (r: Option<&'a [u8]>)
    ensures
        match r {
            Some(v) => header_lookup(headers@, name@) == Some(v@),
            None => header_lookup(headers@, name@) is None,
        },
{
    let mut i: usize = 0;
    assert(headers@.subrange(0, headers@.len() as int) =~= headers@);
    while i < headers.len()
        invariant
            0 <= i <= headers@.len(),
            header_lookup(headers@, name@) == header_lookup(
                headers@.subrange(i as int, headers@.len() as int),
                name@,
            ),
        decreases headers.len() - i,
    {
        let ghost rest = headers@.subrange(i as int, headers@.len() as int);
        assert(rest[0] == headers@[i as int]);
        assert(rest.drop_first() =~= headers@.subrange(i + 1, headers@.len() as int));
        if eq_ignore_ascii_case(headers[i].name.as_slice(), name) {
            return Some(headers[i].value.as_slice());
        }
        i = i + 1;
    }
    None
}

/// An HTTP request to an MCP endpoint.
#[derive(Debug, Clone, PartialEq, Eq)]
pub struct HttpRequest {
    pub url: Vec<u8>,
    pub headers: Vec<Header>,
    pub body: Vec<u8>,
    pub timeout_ms: u64,
    pub max_response_bytes: usize,
}

impl HttpRequest {
    /// The first header with this name, ignoring ASCII case.
    pub fn header(&self, name: &[u8]) -> (r: Option<&[u8]>)
        ensures
            match r {
                Some(v) => header_lookup(self.headers@, name@) == Some(v@),
                None => header_lookup(self.headers@, name@) is None,
            },
    {
        find_header(self.headers.as_slice(), name)
    }
}

/// An HTTP response from an MCP endpoint.
#[derive(Debug, Clone, PartialEq, Eq)]
pub struct HttpResponse {
    pub status: u16,
    pub headers: Vec<Header>,
    pub body: Vec<u8>,
}

impl HttpResponse {
    /// The first header with this name, ignoring ASCII case.
    pub fn header(&self, name: &[u8]) -> (r: Option<&[u8]>)
        ensures
            match r {
                Some(v) => header_lookup(self.headers@, name@) == Some(v@),
                None => header_lookup(self.headers@, name@) is None,
            },
    {
        find_header(self.headers.as_slice(), name)
    }
}

/// Sends HTTP requests; implemented by the host for its network stack.
pub trait HttpTransport {
    fn send(&mut self, request: &HttpRequest) -> Result<HttpResponse, TransportError>;
}

/// Kinds of transport failure.
#[derive(Debug, Clone, Copy, PartialEq, Eq, Structural)]
pub enum TransportErrorKind {
    InvalidEndpoint,
    InsecureEndpoint,
    Dns,
    Connect,
    Tls,
    Timeout,
    Cancelled,
    ResponseTooLarge,
    UnsupportedContentType,
    HttpStatus,
    InvalidResponse,
    Io,
}

/// A transport failure.
#[derive(Debug, Clone, PartialEq, Eq)]
pub struct TransportError {
    pub kind: TransportErrorKind,
    pub message: Vec<u8>,
    pub retryable: bool,
    pub status: Option<u16>,
}

/// Model of a transport failure: kind, message, retryability and status.
pub open spec fn terr(e: TransportError) -> (TransportErrorKind, Seq<u8>, bool, Option<u16>) {
    (e.kind, e.message@, e.retryable, e.status)
}

/// Whether an HTTP status is worth retrying: timeouts, throttling and
/// server errors.
pub open spec fn retryable_status(status: u16) -> bool {
    status == 408 || status == 429 || status >= 500
}

impl TransportError {
    pub fn new(kind: TransportErrorKind, message: &str, retryable: bool) -> (r: Self)
        requires
            message.is_ascii(),
        ensures
            r.kind == kind,
            r.message@ == lit(message),
            r.retryable == retryable,
            r.status is None,
    {
        TransportError { kind, message: ascii_bytes(message), retryable, status: None }
    }

    /// The error for a non-success HTTP status.
    pub fn http_status(status: u16) -> (r: Self)
        ensures
            r.kind == TransportErrorKind::HttpStatus,
            r.message@ == lit("MCP endpoint returned an HTTP error"),
            r.retryable == retryable_status(status),
            r.status == Some(status),
    {
        proof { reveal_strlit("MCP endpoint returned an HTTP error"); }
        TransportError {
            kind: TransportErrorKind::HttpStatus,
            message: ascii_bytes("MCP endpoint returned an HTTP error"),
            retryable: status == 408 || status == 429 || status >= 500,
            status: Some(status),
        }
    }
}

/// The part of `s` before the first `b`.
pub open spec fn before_byte(s: Seq<u8>, b: u8) -> Seq<u8> {
    match find(s, b) {
        Some(i) => s.subrange(0, i),
        None => s,
    }
}

/// The host of the authority of an `http://` URL's remainder: bracketed
/// IPv6 hosts keep what is inside the brackets, others stop at `:`.
pub open spec fn url_host(rest: Seq<u8>) -> Seq<u8> {
    let authority = before_byte(rest, 47);
    if authority.len() > 0 && authority[0] == 91 {
        before_byte(authority.drop_first(), 93)
    } else {
        before_byte(authority, 58)
    }
}

/// A loopback host name.
pub open spec fn is_loopback_host(h: Seq<u8>) -> bool {
    h == lit("localhost") || h == lit("127.0.0.1") || h == lit("::1")
}

/// Whether an endpoint may be used: any `https://` URL, or `http://` to a
/// loopback host.
pub open spec fn endpoint_ok(url: Seq<u8>) -> bool {
    has_prefix(url, lit("https://")) || (has_prefix(url, lit("http://")) && is_loopback_host(
        url_host(url.subrange(7, url.len() as int)),
    ))
}

/// The part before the first `b`.
fn before<'a>(s: &'a [u8], b: u8) -> (r: &'a [u8])
    ensures
        r@ == before_byte(s@, b),
{
    proof {
        lemma_find_from(s@, b, 0);
    }
    match find_byte(s, b) {
        Some(i) => vstd::slice::slice_subrange(s, 0, i),
        None => s,
    }
}

/// The refusal of an endpoint that is not acceptable: plain HTTP to a
/// remote host is insecure (naming credentials when the request carries
/// them); anything else is invalid.
pub open spec fn endpoint_error(url: Seq<u8>, authenticated: bool) -> (TransportErrorKind, Seq<u8>) {
    if has_prefix(url, lit("http://")) {
        (TransportErrorKind::InsecureEndpoint, if authenticated {
            lit("credentials may only be sent to HTTPS or loopback endpoints")
        } else {
            lit("remote MCP endpoints must use HTTPS")
        })
    } else {
        (TransportErrorKind::InvalidEndpoint, lit("MCP endpoint must use https:// or loopback http://"))
    }
}

/// Checks that an endpoint is HTTPS, or plain HTTP to a loopback host.
/// Remote plain-HTTP endpoints are refused as insecure (with a message
/// that names credentials when the request is authenticated); other URLs
/// are invalid.
pub fn validate_endpoint(url: &[u8], authenticated: bool) -> (r: Result<(), TransportError>)
    ensures
        match r {
            Ok(_) => endpoint_ok(url@),
            Err(e) => !endpoint_ok(url@) && !e.retryable && e.status is None
                && (e.kind, e.message@) == endpoint_error(url@, authenticated),
        },
{
    proof {
        reveal_strlit("https://");
        reveal_strlit("http://");
        reveal_strlit("localhost");
        reveal_strlit("127.0.0.1");
        reveal_strlit("::1");
        reveal_strlit("credentials may only be sent to HTTPS or loopback endpoints");
        reveal_strlit("remote MCP endpoints must use HTTPS");
        reveal_strlit("MCP endpoint must use https:// or loopback http://");
    }
    if starts_with(url, ascii_bytes("https://").as_slice()) {
        return Ok(());
    }
    if starts_with(url, ascii_bytes("http://").as_slice()) {
        let rest = vstd::slice::slice_subrange(url, 7, url.len());
        let authority = before(rest, 47);
        let host: &[u8] = if authority.len() > 0 && authority[0] == 91 {
            let inner = vstd::slice::slice_subrange(authority, 1, authority.len());
            assert(inner@ =~= authority@.drop_first());
            before(inner, 93)
        } else {
            before(authority, 58)
        };
        if bytes_eq(host, ascii_bytes("localhost").as_slice()) || bytes_eq(
            host,
            ascii_bytes("127.0.0.1").as_slice(),
        ) || bytes_eq(host, ascii_bytes("::1").as_slice()) {
            return Ok(());
        }
        let message = if authenticated {
            "credentials may only be sent to HTTPS or loopback endpoints"
        } else {
            "remote MCP endpoints must use HTTPS"
        };
        return Err(TransportError::new(TransportErrorKind::InsecureEndpoint, message, false));
    }
    Err(
        TransportError::new(
            TransportErrorKind::InvalidEndpoint,
            "MCP endpoint must use https:// or loopback http://",
            false,
        ),
    )
}

/// Whether an authentication header may be sent: a token name and a value
/// without line breaks.
pub open spec fn header_ok(h: Header) -> bool {
    spec_valid_header_name(h.name@) && !has_line_break(h.value@)
}

/// Checks an authentication header before it is sent.
pub fn validate_header(header: &Header) -> (r: Result<(), TransportError>)
    ensures
        match r {
            Ok(_) => header_ok(*header),
            Err(e) => !header_ok(*header) && e.kind == TransportErrorKind::InvalidEndpoint
                && e.message@ == lit("invalid authentication header") && !e.retryable && e.status is None,
        },
{
    proof { reveal_strlit("invalid authentication header"); }
    if !valid_header_name(header.name.as_slice()) || contains_line_break(header.value.as_slice()) {
        return Err(
            TransportError::new(
                TransportErrorKind::InvalidEndpoint,
                "invalid authentication header",
                false,
            ),
        );
    }
    Ok(())
}

/// Model of a list of headers: name, value and sensitivity of each.
pub open spec fn hview(hs: Seq<Header>) -> Seq<(Seq<u8>, Seq<u8>, bool)> {
    hs.map_values(|h: Header| (h.name@, h.value@, h.sensitive))
}

/// Whether a header (as a model) may be sent.
pub open spec fn hok(h: (Seq<u8>, Seq<u8>, bool)) -> bool {
    spec_valid_header_name(h.0) && !has_line_break(h.1)
}

/// Why a request to `url` with these authentication headers cannot be
/// built: an endpoint that is not acceptable, then a header that may not
/// be sent.
pub open spec fn build_error(url: Seq<u8>, auth: Seq<(Seq<u8>, Seq<u8>, bool)>) -> Option<(TransportErrorKind, Seq<u8>)> {
    if !endpoint_ok(url) {
        Some(endpoint_error(url, auth.len() > 0))
    } else if exists|i: int| 0 <= i < auth.len() && !hok(#[trigger] auth[i]) {
        Some((TransportErrorKind::InvalidEndpoint, lit("invalid authentication header")))
    } else {
        None
    }
}

/// The headers that route a JSON-RPC request: content negotiation, the
/// protocol version of its `_meta` (the latest when absent), its method,
/// and the `name` parameter when it is a string.
pub open spec fn routing_headers(params: JModel, method: Seq<u8>) -> Seq<(Seq<u8>, Seq<u8>, bool)> {
    let base = seq![
        (lit("Content-Type"), lit("application/json"), false),
        (lit("Accept"), lit("application/json, text/event-stream"), false),
        (lit("MCP-Protocol-Version"), match request_version(params) {
            Some(v) => v,
            None => lit(LATEST_PROTOCOL_VERSION),
        }, false),
        (lit("Mcp-Method"), method, false),
    ];
    match str_at(params, lit("name")) {
        Some(n) => base.push((lit("Mcp-Name"), n, false)),
        None => base,
    }
}

/// Frames a JSON-RPC request as an HTTP request to the server's endpoint:
/// the routing headers, then the authentication headers; the body is the
/// request's JSON text.
pub fn build_http_request(server: &ServerConfig, rpc: &RpcRequest, auth_headers: &[Header]) -> (r: Result<HttpRequest, TransportError>)
    ensures
        match r {
            Ok(q) => build_error(server.endpoint@, hview(auth_headers@)) is None
                && q.url@ == server.endpoint@
                && hview(q.headers@) == routing_headers(rpc.params@, rpc.method@) + hview(auth_headers@)
                && q.body@ == jtext(request_json(rpc.id@, rpc.method@, rpc.params@))
                && q.timeout_ms == server.timeout_ms
                && q.max_response_bytes == server.max_response_bytes,
            Err(e) => build_error(server.endpoint@, hview(auth_headers@)) == Some((e.kind, e.message@))
                && !e.retryable && e.status is None,
        },
{
    let ghost auth = hview(auth_headers@);
    match validate_endpoint(server.endpoint.as_slice(), auth_headers.len() > 0) {
        Ok(_) => {},
        Err(e) => return Err(e),
    }
    let mut i: usize = 0;
    while i < auth_headers.len()
        invariant
            0 <= i <= auth_headers@.len(),
            auth == hview(auth_headers@),
            endpoint_ok(server.endpoint@),
            forall|j: int| 0 <= j < i ==> hok(#[trigger] auth[j]),
        decreases auth_headers.len() - i,
    {
        match validate_header(&auth_headers[i]) {
            Ok(_) => {},
            Err(e) => {
                assert(!hok(auth[i as int]));
                return Err(e);
            },
        }
        i = i + 1;
    }
    proof {
        reveal_strlit("Content-Type");
        reveal_strlit("application/json");
        reveal_strlit("Accept");
        reveal_strlit("application/json, text/event-stream");
        reveal_strlit("MCP-Protocol-Version");
        reveal_strlit("Mcp-Method");
        reveal_strlit("Mcp-Name");
        reveal_strlit("name");
        reveal_strlit("_meta");
        reveal_strlit("io.modelcontextprotocol/protocolVersion");
        reveal_strlit("2026-07-28");
    }
    let mut headers: Vec<Header> = Vec::new();
    headers.push(Header::public(ascii_bytes("Content-Type").as_slice(), ascii_bytes("application/json").as_slice()));
    headers.push(Header::public(ascii_bytes("Accept").as_slice(), ascii_bytes("application/json, text/event-stream").as_slice()));
    let version = match rpc.protocol_version() {
        Some(v) => to_vec(v),
        None => ascii_bytes(LATEST_PROTOCOL_VERSION),
    };
    assert(version@ == (match request_version(rpc.params@) {
        Some(v) => v,
        None => lit(LATEST_PROTOCOL_VERSION),
    }));
    headers.push(Header::public(ascii_bytes("MCP-Protocol-Version").as_slice(), version.as_slice()));
    headers.push(Header::public(ascii_bytes("Mcp-Method").as_slice(), rpc.method.as_slice()));
    match get_str(&rpc.params, ascii_bytes("name").as_slice()) {
        Some(n) => headers.push(Header::public(ascii_bytes("Mcp-Name").as_slice(), n.as_slice())),
        None => {},
    }
    let ghost base = hview(headers@);
    assert(base =~= routing_headers(rpc.params@, rpc.method@));
    let mut k: usize = 0;
    while k < auth_headers.len()
        invariant
            0 <= k <= auth_headers@.len(),
            hview(headers@) == base + hview(auth_headers@).subrange(0, k as int),
        decreases auth_headers.len() - k,
    {
        let ghost h0 = hview(headers@);
        headers.push(auth_headers[k].duplicate());
        assert(hview(headers@) =~= h0.push(hview(auth_headers@)[k as int]));
        assert(hview(auth_headers@).subrange(0, k + 1) =~= hview(auth_headers@).subrange(0, k as int).push(hview(auth_headers@)[k as int]));
        k = k + 1;
    }
    assert(hview(auth_headers@).subrange(0, auth_headers@.len() as int) =~= hview(auth_headers@));
    Ok(HttpRequest {
        url: to_vec(server.endpoint.as_slice()),
        headers,
        body: rpc.to_json_string(),
        timeout_ms: server.timeout_ms,
        max_response_bytes: server.max_response_bytes,
    })
}

/// Whether a response's `Content-Type`, when present, names JSON: the
/// media type before any `;`, trimmed, is `application/json`.
pub open spec fn content_type_ok(headers: Seq<Header>) -> bool {
    match header_lookup(headers, lit("Content-Type")) {
        Some(ct) => trim(before_byte(ct, 59)) == lit("application/json"),
        None => true,
    }
}

/// Model of a JSON-RPC response: id, result and error.
pub open spec fn rmodel(q: RpcResponse) -> (RidModel, Option<JModel>, Option<(i32, Seq<u8>, Option<JModel>)>) {
    (q.id@, jopt(q.result), err_model(q.error))
}

/// What an HTTP response decodes to: the checks in order (size, status,
/// media type, UTF-8, JSON), then the JSON-RPC response it holds; a
/// malformed JSON-RPC response is an invalid response with its reason.
pub open spec fn decode_spec(status: u16, headers: Seq<Header>, body: Seq<u8>, max: usize) -> Result<
    (RidModel, Option<JModel>, Option<(i32, Seq<u8>, Option<JModel>)>),
    (TransportErrorKind, Seq<u8>, bool, Option<u16>),
> {
    if body.len() > max {
        Err((TransportErrorKind::ResponseTooLarge, lit("MCP response exceeded configured limit"), false, None))
    } else if !(200 <= status < 300) {
        Err((TransportErrorKind::HttpStatus, lit("MCP endpoint returned an HTTP error"), retryable_status(status), Some(status)))
    } else if !content_type_ok(headers) {
        Err((TransportErrorKind::UnsupportedContentType, lit("expected application/json MCP response"), false, None))
    } else if !vstd::utf8::valid_utf8(body) {
        Err((TransportErrorKind::InvalidResponse, lit("MCP response was not UTF-8"), false, None))
    } else {
        match jparse(body) {
            PStep::Done(v, _) => match response_of(v) {
                Ok(x) => Ok(x),
                Err((_, m)) => Err((TransportErrorKind::InvalidResponse, m, false, None)),
            },
            _ => Err((TransportErrorKind::InvalidResponse, lit("MCP response was not valid JSON"), false, None)),
        }
    }
}

/// Decodes an MCP endpoint's HTTP response into a JSON-RPC response.
/// Text that breaks off where a value is due is reported as invalid JSON.
pub fn decode_http_response(response: &HttpResponse, max_response_bytes: usize) -> (r: Result<RpcResponse, TransportError>)
    ensures
        match r {
            Ok(q) => decode_spec(response.status, response.headers@, response.body@, max_response_bytes) == Ok::<_, (TransportErrorKind, Seq<u8>, bool, Option<u16>)>(rmodel(q)),
            Err(e) => decode_spec(response.status, response.headers@, response.body@, max_response_bytes) == Err::<(RidModel, Option<JModel>, Option<(i32, Seq<u8>, Option<JModel>)>), _>(terr(e)),
        },
{
    proof {
        reveal_strlit("MCP response exceeded configured limit");
        reveal_strlit("expected application/json MCP response");
        reveal_strlit("MCP response was not UTF-8");
        reveal_strlit("MCP response was not valid JSON");
        reveal_strlit("Content-Type");
        reveal_strlit("application/json");
    }
    if response.body.len() > max_response_bytes {
        return Err(TransportError::new(TransportErrorKind::ResponseTooLarge, "MCP response exceeded configured limit", false));
    }
    if !(200 <= response.status && response.status < 300) {
        return Err(TransportError::http_status(response.status));
    }
    match response.header(ascii_bytes("Content-Type").as_slice()) {
        Some(ct) => {
            let media = trim_bytes(before(ct, 59));
            if !bytes_eq(media, ascii_bytes("application/json").as_slice()) {
                return Err(TransportError::new(TransportErrorKind::UnsupportedContentType, "expected application/json MCP response", false));
            }
        },
        None => {},
    }
    if !is_utf8(response.body.as_slice()) {
        return Err(TransportError::new(TransportErrorKind::InvalidResponse, "MCP response was not UTF-8", false));
    }
    let value = match parse_checked(response.body.as_slice()) {
        Some(Ok(v)) => v,
        _ => return Err(TransportError::new(TransportErrorKind::InvalidResponse, "MCP response was not valid JSON", false)),
    };
    match RpcResponse::from_json(&value) {
        Ok(q) => Ok(q),
        Err(e) => Err(TransportError { kind: TransportErrorKind::InvalidResponse, message: e.message, retryable: false, status: None }),
    }
}

/// An MCP client over a host transport.
pub struct McpHttpClient<T> {
    transport: T,
}

impl<T: HttpTransport> McpHttpClient<T> {
    pub closed spec fn inner(&self) -> T {
        self.transport
    }

    pub fn new(transport: T) -> (r: Self)
        ensures
            r.inner() == transport,
    {
        McpHttpClient { transport }
    }

    /// Sends a JSON-RPC request to a server and decodes the reply. A
    /// request that cannot be framed fails with that reason before
    /// anything is sent; otherwise the outcome is the transport's failure
    /// or the decoding of the HTTP response it returned.
    pub fn exchange(&mut self, server: &ServerConfig, rpc: &RpcRequest, auth_headers: &[Header]) -> (r: Result<RpcResponse, TransportError>)
        ensures
            build_error(server.endpoint@, hview(auth_headers@)) matches Some(be) ==> (r matches Err(e)
                && (e.kind, e.message@) == be && !e.retryable && e.status is None),
            r matches Ok(q) ==> build_error(server.endpoint@, hview(auth_headers@)) is None
                && exists|st: u16, hs: Seq<Header>, body: Seq<u8>|
                    #[trigger] decode_spec(st, hs, body, server.max_response_bytes) == Ok::<_, (TransportErrorKind, Seq<u8>, bool, Option<u16>)>(rmodel(q)),
    {
        let request = match build_http_request(server, rpc, auth_headers) {
            Ok(q) => q,
            Err(e) => return Err(e),
        };
        let response = match self.transport.send(&request) {
            Ok(x) => x,
            Err(e) => return Err(e),
        };
        decode_http_response(&response, request.max_response_bytes)
    }

    /// Gives back the transport.
    pub fn into_inner(self) -> (r: T)
        ensures
            r == self.inner(),
    {
        self.transport
    }
}

/// The shown text of headers: `name=value` each, separated by `, `, with
/// sensitive values redacted.
pub open spec fn headers_text(hs: Seq<(Seq<u8>, Seq<u8>, bool)>) -> Seq<u8>
    decreases hs.len(),
{
    if hs.len() == 0 {
        seq![]
    } else {
        headers_text(hs.drop_last()) + (if hs.len() > 1 {
            lit(", ")
        } else {
            seq![]
        }) + hs.last().0 + seq![61u8] + (if hs.last().2 {
            lit("[redacted]")
        } else {
            hs.last().1
        })
    }
}

/// A one-line account of a request that shows no secret:
/// `POST <url> headers=[name=value, ...]` with sensitive values redacted.
pub fn request_summary(request: &HttpRequest) -> (r: Vec<u8>)
    ensures
        r@ == lit("POST ") + request.url@ + lit(" headers=[") + headers_text(hview(request.headers@)) + seq![93u8],
{
    proof {
        reveal_strlit("POST ");
        reveal_strlit(" headers=[");
    }
    let ghost hs = hview(request.headers@);
    let mut out = ascii_bytes("POST ");
    crate::text::push_all(&mut out, request.url.as_slice());
    crate::text::push_all(&mut out, ascii_bytes(" headers=[").as_slice());
    let ghost base = out@;
    let mut i: usize = 0;
    assert(hs.subrange(0, 0) =~= Seq::<(Seq<u8>, Seq<u8>, bool)>::empty());
    assert(base + headers_text(hs.subrange(0, 0)) =~= base);
    while i < request.headers.len()
        invariant
            0 <= i <= request.headers@.len(),
            hs == hview(request.headers@),
            out@ == base + headers_text(hs.subrange(0, i as int)),
        decreases request.headers.len() - i,
    {
        proof {
            reveal_strlit(", ");
        }
        let h = &request.headers[i];
        if i > 0 {
            crate::text::push_all(&mut out, ascii_bytes(", ").as_slice());
        }
        crate::text::push_all(&mut out, h.name.as_slice());
        out.push(61);
        crate::text::push_all(&mut out, h.redacted_value());
        proof {
            let sub = hs.subrange(0, i + 1);
            assert(sub.drop_last() =~= hs.subrange(0, i as int));
            assert(sub.last() == (h.name@, h.value@, h.sensitive));
        }
        i = i + 1;
    }
    assert(hs.subrange(0, i as int) =~= hs);
    out.push(93);
    out
}

} // verus!
