//! A transport-independent MCP server router: it checks protocol
//! structure and hands requests to an application service.

use vstd::prelude::*;

use crate::json::{
    empty_object, get_str, jentries, jget, jinsert, json_u64, object_insert, sopt, str_at, JModel,
    JsonValue,
};
use crate::mcp_primitives::{sort_by_key, Prompt, Resource, SortKey, Tool};
use crate::mcp_wire::{
    meta_key_version, McpError, RequestId, RpcRequest, RpcResponse, LATEST_PROTOCOL_VERSION,
};
use crate::text::{ascii_bytes, bytes_eq, dec, lit, to_vec};

verus! {

/// Who this server is.
pub struct ServerInfo {
    pub name: Vec<u8>,
    pub version: Vec<u8>,
    pub title: Option<Vec<u8>>,
}

/// The JSON of a server's identity.
pub open spec fn info_json(name: Seq<u8>, version: Seq<u8>, title: Option<Seq<u8>>) -> JModel {
    JModel::Object(crate::mcp_primitives::put_opt(
        jinsert(jinsert(seq![], lit("name"), JModel::Str(name)), lit("version"), JModel::Str(version)),
        lit("title"),
        crate::mcp_primitives::str_opt(title),
    ))
}

impl ServerInfo {
    fn to_json(&self) -> (r: JsonValue)
        ensures
            r@ == info_json(self.name@, self.version@, sopt(self.title)),
    {
        proof { reveal_strlit("name"); reveal_strlit("version"); reveal_strlit("title"); }
        let mut m: Vec<(Vec<u8>, JsonValue)> = Vec::new();
        assert(jentries(m@) =~= seq![]);
        object_insert(&mut m, ascii_bytes("name"), JsonValue::Str(to_vec(self.name.as_slice())));
        object_insert(&mut m, ascii_bytes("version"), JsonValue::Str(to_vec(self.version.as_slice())));
        match &self.title {
            Some(t) => object_insert(&mut m, ascii_bytes("title"), JsonValue::Str(to_vec(t.as_slice()))),
            None => {},
        }
        JsonValue::Object(m)
    }
}

/// Which kinds of primitive a server offers.
#[derive(Debug, Clone, Copy, PartialEq, Eq, Structural)]
pub struct ServerCapabilities {
    pub tools: bool,
    pub resources: bool,
    pub prompts: bool,
}

/// The JSON of server capabilities: an empty object for each offered kind.
pub open spec fn capabilities_json(c: ServerCapabilities) -> JModel {
    let m0: Seq<(Seq<u8>, JModel)> = seq![];
    let m1 = if c.tools { jinsert(m0, lit("tools"), JModel::Object(seq![])) } else { m0 };
    let m2 = if c.resources { jinsert(m1, lit("resources"), JModel::Object(seq![])) } else { m1 };
    let m3 = if c.prompts { jinsert(m2, lit("prompts"), JModel::Object(seq![])) } else { m2 };
    JModel::Object(m3)
}

impl ServerCapabilities {
    fn to_json(self) -> (r: JsonValue)
        ensures
            r@ == capabilities_json(self),
    {
        proof { reveal_strlit("tools"); reveal_strlit("resources"); reveal_strlit("prompts"); }
        let mut m: Vec<(Vec<u8>, JsonValue)> = Vec::new();
        assert(jentries(m@) =~= seq![]);
        if self.tools {
            object_insert(&mut m, ascii_bytes("tools"), empty_object());
        }
        if self.resources {
            object_insert(&mut m, ascii_bytes("resources"), empty_object());
        }
        if self.prompts {
            object_insert(&mut m, ascii_bytes("prompts"), empty_object());
        }
        JsonValue::Object(m)
    }
}

/// What the transport's headers say of a request.
pub struct RoutingMetadata {
    pub protocol_version: Vec<u8>,
    pub method: Vec<u8>,
    pub name: Option<Vec<u8>>,
}

/// The protocol version in a request's `_meta`.
pub open spec fn request_version(params: JModel) -> Option<Seq<u8>> {
    match jget(params, lit("_meta")) {
        Some(m) => str_at(m, meta_key_version()),
        None => None,
    }
}

impl RoutingMetadata {
    /// The headers that a request's body implies.
    pub fn from_request(request: &RpcRequest) -> (r: RoutingMetadata)
        ensures
            r.protocol_version@ == (match request_version(request.params@) {
                Some(v) => v,
                None => lit(LATEST_PROTOCOL_VERSION),
            }),
            r.method@ == request.method@,
            sopt(r.name) == str_at(request.params@, lit("name")),
    {
        proof { reveal_strlit("2026-07-28"); reveal_strlit("name"); }
        let protocol_version = match request.protocol_version() {
            Some(v) => to_vec(v),
            None => ascii_bytes(LATEST_PROTOCOL_VERSION),
        };
        RoutingMetadata {
            protocol_version,
            method: to_vec(request.method.as_slice()),
            name: get_str(&request.params, ascii_bytes("name").as_slice()),
        }
    }
}

/// The application behind the router. Implementations perform their own
/// policy checks; the router only enforces protocol structure.
pub trait McpService {
    fn info(&self) -> ServerInfo;

    fn instructions(&self) -> Option<Vec<u8>> {
        None
    }

    fn capabilities(&self) -> ServerCapabilities;

    fn tools(&self) -> Vec<Tool> {
        Vec::new()
    }

    fn resources(&self) -> Vec<Resource> {
        Vec::new()
    }

    fn prompts(&self) -> Vec<Prompt> {
        Vec::new()
    }

    fn call_tool(&mut self, name: &[u8], arguments: &JsonValue) -> Result<JsonValue, McpError>;

    fn read_resource(&mut self, uri: &[u8]) -> Result<JsonValue, McpError>;

    fn get_prompt(&mut self, name: &[u8], arguments: &JsonValue) -> Result<JsonValue, McpError>;
}

/// How a request's headers disagree with its body, if they do: the
/// message of the refusal.
pub open spec fn routing_mismatch(params: JModel, method: Seq<u8>, routing: RoutingMetadata) -> Option<Seq<u8>> {
    let pv = match request_version(params) {
        Some(v) => v,
        None => seq![],
    };
    if routing.protocol_version@ != pv {
        Some(lit("MCP-Protocol-Version header does not match request metadata"))
    } else if routing.method@ != method {
        Some(lit("Mcp-Method header does not match request method"))
    } else if sopt(routing.name) != str_at(params, lit("name")) {
        Some(lit("Mcp-Name header does not match request name"))
    } else {
        None
    }
}

fn validate_routing(request: &RpcRequest, routing: &RoutingMetadata) -> (r: Result<(), McpError>)
    ensures
        match r {
            Ok(_) => routing_mismatch(request.params@, request.method@, *routing) is None,
            Err(e) => routing_mismatch(request.params@, request.method@, *routing) == Some(e.message@)
                && e.code == McpError::INVALID_REQUEST && e.data is None,
        },
{
    proof {
        reveal_strlit("name");
        reveal_strlit("MCP-Protocol-Version header does not match request metadata");
        reveal_strlit("Mcp-Method header does not match request method");
        reveal_strlit("Mcp-Name header does not match request name");
    }
    let pv: &[u8] = match request.protocol_version() {
        Some(v) => v,
        None => &[],
    };
    assert(pv@ == (match request_version(request.params@) { Some(v) => v, None => Seq::<u8>::empty() })) by {
        if request_version(request.params@) is None {
            assert(pv@ =~= Seq::<u8>::empty());
        }
    }
    if !bytes_eq(routing.protocol_version.as_slice(), pv) {
        return Err(McpError::invalid_request(ascii_bytes("MCP-Protocol-Version header does not match request metadata").as_slice()));
    }
    if !bytes_eq(routing.method.as_slice(), request.method.as_slice()) {
        return Err(McpError::invalid_request(ascii_bytes("Mcp-Method header does not match request method").as_slice()));
    }
    let body_name = get_str(&request.params, ascii_bytes("name").as_slice());
    let same = match (&routing.name, &body_name) {
        (Some(a), Some(b)) => bytes_eq(a.as_slice(), b.as_slice()),
        (None, None) => true,
        _ => false,
    };
    if !same {
        return Err(McpError::invalid_request(ascii_bytes("Mcp-Name header does not match request name").as_slice()));
    }
    Ok(())
}

/// The data of the refusal of an unsupported protocol version.
pub open spec fn unsupported_data() -> JModel {
    JModel::Object(jinsert(seq![], lit("supported"), JModel::Array(seq![JModel::Str(lit(LATEST_PROTOCOL_VERSION))])))
}

fn unsupported_version() -> (r: McpError)
    ensures
        r.code == McpError::UNSUPPORTED_PROTOCOL_VERSION,
        r.message@ == lit("unsupported MCP protocol version"),
        crate::json::jopt(r.data) == Some(unsupported_data()),
{
    proof { reveal_strlit("unsupported MCP protocol version"); reveal_strlit("supported"); reveal_strlit("2026-07-28"); }
    let mut error = McpError::new(McpError::UNSUPPORTED_PROTOCOL_VERSION, ascii_bytes("unsupported MCP protocol version").as_slice());
    let mut m: Vec<(Vec<u8>, JsonValue)> = Vec::new();
    assert(jentries(m@) =~= seq![]);
    let mut versions: Vec<JsonValue> = Vec::new();
    let sv = JsonValue::Str(ascii_bytes(LATEST_PROTOCOL_VERSION));
    assert(sv@ == JModel::Str(lit(LATEST_PROTOCOL_VERSION)));
    versions.push(sv);
    assert(versions@.last() == sv);
    assert(versions@.drop_last() =~= Seq::<JsonValue>::empty());
    assert(crate::json::jviews(versions@.drop_last()) =~= seq![]);
    assert(crate::json::jviews(versions@) =~= seq![JModel::Str(lit(LATEST_PROTOCOL_VERSION))]);
    object_insert(&mut m, ascii_bytes("supported"), JsonValue::Array(versions));
    error.data = Some(JsonValue::Object(m));
    error
}

/// The message for a missing string parameter.
pub open spec fn missing_param_msg() -> Seq<u8> {
    lit("required string parameter is missing")
}

fn required_string(value: &JsonValue, field: &[u8]) -> (r: Result<Vec<u8>, McpError>)
    ensures
        match r {
            Ok(s) => str_at(value@, field@) == Some(s@),
            Err(e) => str_at(value@, field@) is None && e.code == McpError::INVALID_PARAMS && e.message@
                == missing_param_msg() && e.data is None,
        },
{
    proof { reveal_strlit("required string parameter is missing"); }
    match get_str(value, field) {
        Some(s) => Ok(s),
        None => Err(McpError::invalid_params(ascii_bytes("required string parameter is missing").as_slice())),
    }
}

/// The result that says only that the request is complete.
pub open spec fn complete_json() -> JModel {
    JModel::Object(jinsert(seq![], lit("resultType"), JModel::Str(lit("complete"))))
}

fn complete_object() -> (r: JsonValue)
    ensures
        r@ == complete_json(),
{
    proof { reveal_strlit("resultType"); reveal_strlit("complete"); }
    let mut m: Vec<(Vec<u8>, JsonValue)> = Vec::new();
    assert(jentries(m@) =~= seq![]);
    object_insert(&mut m, ascii_bytes("resultType"), JsonValue::Str(ascii_bytes("complete")));
    JsonValue::Object(m)
}

/// A listing result: complete, the items under `field`, the catalog's
/// time-to-live, private caching.
pub open spec fn list_json(field: Seq<u8>, items: Seq<JModel>, ttl_ms: u64) -> JModel {
    JModel::Object(jinsert(
        jinsert(
            jinsert(jinsert(seq![], lit("resultType"), JModel::Str(lit("complete"))), field, JModel::Array(items)),
            lit("ttlMs"),
            JModel::Number(dec(ttl_ms as nat)),
        ),
        lit("cacheScope"),
        JModel::Str(lit("private")),
    ))
}

fn list_result(field: Vec<u8>, items: Vec<JsonValue>, ttl_ms: u64) -> (r: JsonValue)
    ensures
        r@ == list_json(field@, crate::json::jviews(items@), ttl_ms),
{
    proof { reveal_strlit("resultType"); reveal_strlit("complete"); reveal_strlit("ttlMs"); reveal_strlit("cacheScope"); reveal_strlit("private"); }
    let mut m: Vec<(Vec<u8>, JsonValue)> = Vec::new();
    assert(jentries(m@) =~= seq![]);
    object_insert(&mut m, ascii_bytes("resultType"), JsonValue::Str(ascii_bytes("complete")));
    object_insert(&mut m, field, JsonValue::Array(items));
    object_insert(&mut m, ascii_bytes("ttlMs"), json_u64(ttl_ms));
    object_insert(&mut m, ascii_bytes("cacheScope"), JsonValue::Str(ascii_bytes("private")));
    JsonValue::Object(m)
}

/// The catalog time-to-live a new server announces.
pub const DEFAULT_CATALOG_TTL_MS: u64 = 60_000;

/// The router around a service.
pub struct McpServer<S> {
    service: S,
    catalog_ttl_ms: u64,
}

impl<S: McpService> McpServer<S> {
    /// The catalog time-to-live this server announces.
    pub closed spec fn catalog_ttl(&self) -> u64 {
        self.catalog_ttl_ms
    }

    /// The service behind the router.
    pub closed spec fn service_view(&self) -> S {
        self.service
    }

    pub fn new(service: S) -> (r: Self)
        ensures
            r.catalog_ttl() == DEFAULT_CATALOG_TTL_MS,
            r.service_view() == service,
    {
        McpServer { service, catalog_ttl_ms: DEFAULT_CATALOG_TTL_MS }
    }

    pub fn with_catalog_ttl(self, ttl_ms: u64) -> (r: Self)
        ensures
            r.catalog_ttl() == ttl_ms,
            r.service_view() == self.service_view(),
    {
        let mut s = self;
        s.catalog_ttl_ms = ttl_ms;
        s
    }

    pub fn service(&self) -> (r: &S)
        ensures
            *r == self.service_view(),
    {
        &self.service
    }

    pub fn service_mut(&mut self) -> (r: &mut S)
        ensures
            *r == old(self).service_view(),
            final(self).service_view() == *final(r),
            final(self).catalog_ttl() == old(self).catalog_ttl(),
    {
        &mut self.service
    }

    /// Answers a request: headers that disagree with the body and protocol
    /// versions other than the latest are refused; the rest is routed.
    pub fn handle(&mut self, request: RpcRequest, routing: &RoutingMetadata) -> (r: RpcResponse)
        ensures
            r.id == request.id,
            final(self).catalog_ttl() == old(self).catalog_ttl(),
            routing_mismatch(request.params@, request.method@, *routing) matches Some(m) ==> (r.error matches Some(e)
                && e.code == McpError::INVALID_REQUEST && e.message@ == m && e.data is None && r.result is None),
            routing_mismatch(request.params@, request.method@, *routing) is None && request_version(request.params@)
                != Some(lit(LATEST_PROTOCOL_VERSION)) ==> (r.error matches Some(e) && e.code
                == McpError::UNSUPPORTED_PROTOCOL_VERSION && e.message@ == lit("unsupported MCP protocol version")
                && crate::json::jopt(e.data) == Some(unsupported_data()) && r.result is None),
            routing_mismatch(request.params@, request.method@, *routing) is None && request_version(request.params@)
                == Some(lit(LATEST_PROTOCOL_VERSION)) ==> route_outcome(request.method@, request.params@, r),
            routing_mismatch(request.params@, request.method@, *routing) is None && request_version(request.params@)
                == Some(lit(LATEST_PROTOCOL_VERSION)) && request.method@ == lit(crate::method::SERVER_DISCOVER) ==> (r.result matches Some(v)
                && is_discovery(v@, old(self).catalog_ttl())),
    {
        proof { reveal_strlit("2026-07-28"); }
        match validate_routing(&request, routing) {
            Ok(_) => {},
            Err(error) => return RpcResponse::failure(request.id, error),
        }
        let latest = ascii_bytes(LATEST_PROTOCOL_VERSION);
        let ok_version = match request.protocol_version() {
            Some(v) => bytes_eq(v, latest.as_slice()),
            None => false,
        };
        if !ok_version {
            return RpcResponse::failure(request.id, unsupported_version());
        }
        let result = self.route(&request);
        match result {
            Ok(result) => RpcResponse::success(request.id, result),
            Err(error) => RpcResponse::failure(request.id, error),
        }
    }

    fn route(&mut self, request: &RpcRequest) -> (r: Result<JsonValue, McpError>)
        ensures
            final(self).catalog_ttl() == old(self).catalog_ttl(),
            route_outcome(request.method@, request.params@, match r {
                Ok(v) => RpcResponse { id: request.id, result: Some(v), error: None },
                Err(e) => RpcResponse { id: request.id, result: None, error: Some(e) },
            }),
            request.method@ == lit(crate::method::SERVER_DISCOVER) ==> (r matches Ok(v) && is_discovery(v@, old(self).catalog_ttl())),
    {
        proof {
            reveal_strlit("server/discover"); reveal_strlit("tools/list"); reveal_strlit("resources/list");
            reveal_strlit("prompts/list"); reveal_strlit("tools/call"); reveal_strlit("resources/read");
            reveal_strlit("prompts/get"); reveal_strlit("ping"); reveal_strlit("name"); reveal_strlit("arguments");
            reveal_strlit("uri"); reveal_strlit("arguments must be an object"); reveal_strlit("tools");
            reveal_strlit("resources"); reveal_strlit("prompts");
            lemma_method_names();
        }
        let m = request.method.as_slice();
        if bytes_eq(m, ascii_bytes(crate::method::SERVER_DISCOVER).as_slice()) {
            Ok(self.discovery())
        } else if bytes_eq(m, ascii_bytes(crate::method::TOOLS_LIST).as_slice()) {
            if !self.service.capabilities().tools {
                return Err(McpError::method_not_found(ascii_bytes(crate::method::TOOLS_LIST).as_slice()));
            }
            let mut tools = self.service.tools();
            crate::mcp_primitives::sort_items(&mut tools);
            let mut items: Vec<JsonValue> = Vec::new();
            let mut i: usize = 0;
            while i < tools.len()
                invariant
                    0 <= i <= tools@.len(),
                decreases tools.len() - i,
            {
                items.push(tools[i].to_json());
                i = i + 1;
            }
            Ok(list_result(ascii_bytes("tools"), items, self.catalog_ttl_ms))
        } else if bytes_eq(m, ascii_bytes(crate::method::RESOURCES_LIST).as_slice()) {
            if !self.service.capabilities().resources {
                return Err(McpError::method_not_found(ascii_bytes(crate::method::RESOURCES_LIST).as_slice()));
            }
            let mut resources = self.service.resources();
            crate::mcp_primitives::sort_items(&mut resources);
            let mut items: Vec<JsonValue> = Vec::new();
            let mut i: usize = 0;
            while i < resources.len()
                invariant
                    0 <= i <= resources@.len(),
                decreases resources.len() - i,
            {
                items.push(resources[i].to_json());
                i = i + 1;
            }
            Ok(list_result(ascii_bytes("resources"), items, self.catalog_ttl_ms))
        } else if bytes_eq(m, ascii_bytes(crate::method::PROMPTS_LIST).as_slice()) {
            if !self.service.capabilities().prompts {
                return Err(McpError::method_not_found(ascii_bytes(crate::method::PROMPTS_LIST).as_slice()));
            }
            let mut prompts = self.service.prompts();
            crate::mcp_primitives::sort_items(&mut prompts);
            let mut items: Vec<JsonValue> = Vec::new();
            let mut i: usize = 0;
            while i < prompts.len()
                invariant
                    0 <= i <= prompts@.len(),
                decreases prompts.len() - i,
            {
                items.push(prompts[i].to_json());
                i = i + 1;
            }
            Ok(list_result(ascii_bytes("prompts"), items, self.catalog_ttl_ms))
        } else if bytes_eq(m, ascii_bytes(crate::method::TOOLS_CALL).as_slice()) {
            let name = required_string(&request.params, ascii_bytes("name").as_slice())?;
            let arguments = match request.params.get(ascii_bytes("arguments").as_slice()) {
                Some(a) => a.duplicate(),
                None => empty_object(),
            };
            if arguments.as_object().is_none() {
                return Err(McpError::invalid_params(ascii_bytes("arguments must be an object").as_slice()));
            }
            self.service.call_tool(name.as_slice(), &arguments)
        } else if bytes_eq(m, ascii_bytes(crate::method::RESOURCES_READ).as_slice()) {
            let uri = required_string(&request.params, ascii_bytes("uri").as_slice())?;
            self.service.read_resource(uri.as_slice())
        } else if bytes_eq(m, ascii_bytes(crate::method::PROMPTS_GET).as_slice()) {
            let name = required_string(&request.params, ascii_bytes("name").as_slice())?;
            let arguments = match request.params.get(ascii_bytes("arguments").as_slice()) {
                Some(a) => a.duplicate(),
                None => empty_object(),
            };
            self.service.get_prompt(name.as_slice(), &arguments)
        } else if bytes_eq(m, ascii_bytes(crate::method::PING).as_slice()) {
            Ok(complete_object())
        } else {
            Err(McpError::method_not_found(m))
        }
    }

    fn discovery(&self) -> (r: JsonValue)
        ensures
            is_discovery(r@, self.catalog_ttl()),
    {
        proof {
            reveal_strlit("resultType"); reveal_strlit("complete"); reveal_strlit("supportedVersions"); reveal_strlit("2026-07-28");
            reveal_strlit("capabilities"); reveal_strlit("instructions"); reveal_strlit("ttlMs"); reveal_strlit("cacheScope");
            reveal_strlit("private"); reveal_strlit("io.modelcontextprotocol/serverInfo"); reveal_strlit("_meta");
        }
        let mut result: Vec<(Vec<u8>, JsonValue)> = Vec::new();
        assert(jentries(result@) =~= seq![]);
        object_insert(&mut result, ascii_bytes("resultType"), JsonValue::Str(ascii_bytes("complete")));
        let mut versions: Vec<JsonValue> = Vec::new();
        versions.push(JsonValue::Str(ascii_bytes(LATEST_PROTOCOL_VERSION)));
        proof {
            crate::json::lemma_jviews_index(versions@, 0);
        }
        assert(crate::json::jviews(versions@) =~= seq![JModel::Str(lit(LATEST_PROTOCOL_VERSION))]);
        object_insert(&mut result, ascii_bytes("supportedVersions"), JsonValue::Array(versions));
        let caps = self.service.capabilities();
        object_insert(&mut result, ascii_bytes("capabilities"), caps.to_json());
        let instr = self.service.instructions();
        let ghost iv = sopt(instr);
        match instr {
            Some(instructions) => object_insert(&mut result, ascii_bytes("instructions"), JsonValue::Str(instructions)),
            None => {},
        }
        object_insert(&mut result, ascii_bytes("ttlMs"), json_u64(self.catalog_ttl_ms));
        object_insert(&mut result, ascii_bytes("cacheScope"), JsonValue::Str(ascii_bytes("private")));
        let mut metadata: Vec<(Vec<u8>, JsonValue)> = Vec::new();
        assert(jentries(metadata@) =~= seq![]);
        let info = self.service.info();
        object_insert(&mut metadata, ascii_bytes("io.modelcontextprotocol/serverInfo"), info.to_json());
        object_insert(&mut result, ascii_bytes("_meta"), JsonValue::Object(metadata));
        let r = JsonValue::Object(result);
        assert(r@ == discovery_json(caps, iv, self.catalog_ttl_ms, info.name@, info.version@, sopt(info.title)));
        r
    }
}

/// The discovery result of a server with these capabilities,
/// instructions, catalog time-to-live and identity.
pub open spec fn discovery_json(
    caps: ServerCapabilities,
    instructions: Option<Seq<u8>>,
    ttl_ms: u64,
    name: Seq<u8>,
    version: Seq<u8>,
    title: Option<Seq<u8>>,
) -> JModel {
    let m2 = jinsert(
        jinsert(
            jinsert(seq![], lit("resultType"), JModel::Str(lit("complete"))),
            lit("supportedVersions"),
            JModel::Array(seq![JModel::Str(lit(LATEST_PROTOCOL_VERSION))]),
        ),
        lit("capabilities"),
        capabilities_json(caps),
    );
    let m3 = match instructions {
        Some(i) => jinsert(m2, lit("instructions"), JModel::Str(i)),
        None => m2,
    };
    let meta = jinsert(seq![], lit("io.modelcontextprotocol/serverInfo"), info_json(name, version, title));
    JModel::Object(
        jinsert(
            jinsert(jinsert(m3, lit("ttlMs"), JModel::Number(dec(ttl_ms as nat))), lit("cacheScope"), JModel::Str(lit("private"))),
            lit("_meta"),
            JModel::Object(meta),
        ),
    )
}

/// Whether a value is the discovery result of this server for some
/// capabilities, instructions and identity of its service.
pub open spec fn is_discovery(v: JModel, ttl_ms: u64) -> bool {
    exists|c: ServerCapabilities, i: Option<Seq<u8>>, n: Seq<u8>, ver: Seq<u8>, t: Option<Seq<u8>>|
        v == #[trigger] discovery_json(c, i, ttl_ms, n, ver, t)
}

/// The method names differ from one another.
proof fn lemma_method_names()
    ensures
        lit(crate::method::SERVER_DISCOVER).len() == 15,
        lit(crate::method::TOOLS_LIST).len() == 10,
        lit(crate::method::TOOLS_CALL).len() == 10,
        lit(crate::method::RESOURCES_LIST).len() == 14,
        lit(crate::method::RESOURCES_READ).len() == 14,
        lit(crate::method::PROMPTS_LIST).len() == 12,
        lit(crate::method::PROMPTS_GET).len() == 11,
        lit(crate::method::PING).len() == 4,
        lit(crate::method::TOOLS_LIST) != lit(crate::method::TOOLS_CALL),
        lit(crate::method::RESOURCES_LIST) != lit(crate::method::RESOURCES_READ),
{
    reveal_strlit("server/discover");
    reveal_strlit("tools/list");
    reveal_strlit("tools/call");
    reveal_strlit("resources/list");
    reveal_strlit("resources/read");
    reveal_strlit("prompts/list");
    reveal_strlit("prompts/get");
    reveal_strlit("ping");
    assert(lit(crate::method::TOOLS_LIST)[6] != lit(crate::method::TOOLS_CALL)[6]);
    assert(lit(crate::method::RESOURCES_LIST)[10] != lit(crate::method::RESOURCES_READ)[10]);
}

/// What routing owes for a request, whatever the service answers: a
/// method-not-found refusal for an unknown method; an invalid-params
/// refusal for a call without a string `name` (or `uri` for a read) or
/// with non-object `arguments`; a bare complete result for `ping`.
pub open spec fn route_outcome(method: Seq<u8>, params: JModel, r: RpcResponse) -> bool {
    let known = method == lit(crate::method::SERVER_DISCOVER) || method == lit(crate::method::TOOLS_LIST)
        || method == lit(crate::method::RESOURCES_LIST) || method == lit(crate::method::PROMPTS_LIST)
        || method == lit(crate::method::TOOLS_CALL) || method == lit(crate::method::RESOURCES_READ)
        || method == lit(crate::method::PROMPTS_GET) || method == lit(crate::method::PING);
    &&& method == lit(crate::method::SERVER_DISCOVER) ==> (r.result matches Some(v) && r.error is None)
    &&& !known ==> (r.error matches Some(e) && e.code == McpError::METHOD_NOT_FOUND && e.message@ == method && r.result is None)
    &&& method == lit(crate::method::PING) ==> (r.result matches Some(v) && v@ == complete_json() && r.error is None)
    &&& (method == lit(crate::method::TOOLS_CALL) || method == lit(crate::method::PROMPTS_GET)) && str_at(params, lit("name")) is None
        ==> (r.error matches Some(e) && e.code == McpError::INVALID_PARAMS && e.message@ == missing_param_msg())
    &&& method == lit(crate::method::RESOURCES_READ) && str_at(params, lit("uri")) is None
        ==> (r.error matches Some(e) && e.code == McpError::INVALID_PARAMS && e.message@ == missing_param_msg())
    &&& (method == lit(crate::method::TOOLS_CALL) && str_at(params, lit("name")) is Some && (jget(params, lit("arguments")) matches Some(a)
        && !(a is Object))) ==> (r.error matches Some(e) && e.code == McpError::INVALID_PARAMS && e.message@ == lit("arguments must be an object"))
}

} // verus!
