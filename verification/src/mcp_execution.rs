//! Host execution planning: namespaced tool calls, paginated catalog
//! ingestion, call outcomes and continuations.

use vstd::prelude::*;

use crate::json::{
    empty_object, get_opt_str, get_str, jentries, jget, jinsert, jopt, jremove, members_of,
    object_insert, object_remove, opt_str_at, sopt, str_at, JModel, JsonValue,
};
use crate::mcp_client::{
    client_meta, id_text, sat_add, ClientError, ClientErrorKind, ClientManager, ClientModel,
    ClientStatus,
};
use crate::mcp_primitives::{
    msorted, namespaced, prompt_page_of, resolve_spec, resource_page_of, spec_namespaced,
    tool_page_of, CacheScope, CatalogModel, Page, Prompt, Resource, ServerCatalog, Tool,
    prompt_views, resource_views, tool_views,
};
use crate::mcp_wire::{err_model, with_meta, McpError, RidModel, RpcRequest, RpcResponse};
use crate::sorted_map::{sfind, sget, sinsert};
use crate::text::{ascii_bytes, bytes_eq, lit, to_vec};

verus! {

/// The kinds of listing.
#[derive(Debug, Clone, Copy, PartialEq, Eq, Structural)]
pub enum ListKind {
    Tools,
    Resources,
    Prompts,
}

/// The listing method of a kind.
pub open spec fn kind_method(k: ListKind) -> &'static str {
    match k {
        ListKind::Tools => crate::method::TOOLS_LIST,
        ListKind::Resources => crate::method::RESOURCES_LIST,
        ListKind::Prompts => crate::method::PROMPTS_LIST,
    }
}

/// Whether a server allows a kind of listing (false for an unknown
/// server).
pub open spec fn kind_allowed(k: ListKind, clients: Seq<(Seq<u8>, ClientModel)>, sid: Seq<u8>) -> bool {
    match sget(clients, sid) {
        Some(c) => match k {
            ListKind::Tools => c.server.allow_tools,
            ListKind::Resources => c.server.allow_resources,
            ListKind::Prompts => c.server.allow_prompts,
        },
        None => false,
    }
}

impl ListKind {
    pub fn method(self) -> (r: &'static str)
        ensures
            r == kind_method(self),
    {
        match self {
            ListKind::Tools => crate::method::TOOLS_LIST,
            ListKind::Resources => crate::method::RESOURCES_LIST,
            ListKind::Prompts => crate::method::PROMPTS_LIST,
        }
    }

    fn method_bytes(self) -> (r: Vec<u8>)
        ensures
            r@ == lit(kind_method(self)),
    {
        proof { reveal_strlit("tools/list"); reveal_strlit("resources/list"); reveal_strlit("prompts/list"); }
        match self {
            ListKind::Tools => ascii_bytes(crate::method::TOOLS_LIST),
            ListKind::Resources => ascii_bytes(crate::method::RESOURCES_LIST),
            ListKind::Prompts => ascii_bytes(crate::method::PROMPTS_LIST),
        }
    }

    fn is_allowed(self, manager: &ClientManager, server_id: &[u8]) -> (r: bool)
        ensures
            r == kind_allowed(self, manager.clients(), server_id@),
    {
        match manager.client(server_id) {
            Some(c) => match self {
                ListKind::Tools => c.server.allow_tools,
                ListKind::Resources => c.server.allow_resources,
                ListKind::Prompts => c.server.allow_prompts,
            },
            None => false,
        }
    }
}

/// Why a host operation failed.
#[derive(Debug)]
pub enum McpHostError {
    Client(ClientError),
    Remote(McpError),
    UnknownTool(Vec<u8>),
    CapabilityDenied(Vec<u8>),
    InvalidArguments(Vec<u8>),
    InvalidResult(Vec<u8>),
}

/// Model of a host error.
pub enum HostErr {
    Client(ClientErrorKind, Seq<u8>),
    Remote(i32, Seq<u8>, Option<JModel>),
    UnknownTool(Seq<u8>),
    CapabilityDenied(Seq<u8>),
    InvalidArguments(Seq<u8>),
    InvalidResult(Seq<u8>),
}

impl McpHostError {
    pub open spec fn view(&self) -> HostErr {
        match self {
            McpHostError::Client(e) => HostErr::Client(e.kind, e.message@),
            McpHostError::Remote(e) => HostErr::Remote(e.code, e.message@, jopt(e.data)),
            McpHostError::UnknownTool(m) => HostErr::UnknownTool(m@),
            McpHostError::CapabilityDenied(m) => HostErr::CapabilityDenied(m@),
            McpHostError::InvalidArguments(m) => HostErr::InvalidArguments(m@),
            McpHostError::InvalidResult(m) => HostErr::InvalidResult(m@),
        }
    }
}

/// A planned call of one server's tool.
#[derive(Debug)]
pub struct ToolInvocation {
    pub server_id: Vec<u8>,
    pub tool_name: Vec<u8>,
    pub arguments: JsonValue,
}

impl ToolInvocation {
    pub fn exposed_name(&self) -> (r: Vec<u8>)
        ensures
            r@ == spec_namespaced(self.server_id@, self.tool_name@),
    {
        namespaced(self.server_id.as_slice(), self.tool_name.as_slice())
    }
}

/// A client after it sent one more request.
pub open spec fn bumped(c: ClientModel) -> ClientModel {
    ClientModel { sequence: sat_add(c.sequence, 1), ..c }
}

/// What a request made through a server's client must satisfy: the
/// client at `i` is ready and sent it with the next id, the given method
/// and the parameters with the client's `_meta`.
pub open spec fn sent_by(
    old_clients: Seq<(Seq<u8>, ClientModel)>,
    new_clients: Seq<(Seq<u8>, ClientModel)>,
    i: int,
    req: RpcRequest,
    method: Seq<u8>,
    params: JModel,
) -> bool {
    let c = old_clients[i].1;
    &&& 0 <= i < old_clients.len()
    &&& c.status == ClientStatus::Ready
    &&& new_clients == old_clients.update(i, (old_clients[i].0, bumped(c)))
    &&& req.id@ == RidModel::Text(id_text(c.server.id, sat_add(c.sequence, 1)))
    &&& req.method@ == method
    &&& req.params@ == with_meta(params, client_meta(c.discovery))
}

/// The failure of a request to a server that is unknown or not ready.
pub open spec fn request_refusal(clients: Seq<(Seq<u8>, ClientModel)>, sid: Seq<u8>) -> Option<HostErr> {
    match sfind(clients, sid) {
        None => Some(HostErr::Client(ClientErrorKind::UnknownServer, lit("unknown MCP server"))),
        Some(i) => if clients[i].1.status != ClientStatus::Ready {
            Some(HostErr::Client(ClientErrorKind::NotReady, lit("MCP client is not ready")))
        } else {
            None
        },
    }
}

/// An object of one member.
pub open spec fn obj1(k: Seq<u8>, v: JModel) -> JModel {
    JModel::Object(jinsert(seq![], k, v))
}

/// An object of two members.
pub open spec fn obj2(k1: Seq<u8>, v1: JModel, k2: Seq<u8>, v2: JModel) -> JModel {
    JModel::Object(jinsert(jinsert(seq![], k1, v1), k2, v2))
}

/// The decisions before a planned tool call: the arguments must be an
/// object, the exposed name must resolve, and the server's client must
/// allow the tool and be ready. The server id, the tool and the client's
/// position.
pub open spec fn plan_spec(
    clients: Seq<(Seq<u8>, ClientModel)>,
    catalog: Seq<(Seq<u8>, CatalogModel)>,
    exposed: Seq<u8>,
    args: JModel,
) -> Result<(Seq<u8>, crate::mcp_primitives::ToolModel, int), HostErr> {
    if !(args is Object) {
        Err(HostErr::InvalidArguments(lit("tool arguments must be an object")))
    } else {
        match resolve_spec(catalog, exposed) {
            None => Err(HostErr::UnknownTool(exposed)),
            Some((sid, t)) => match sfind(clients, sid) {
                None => Err(HostErr::Client(ClientErrorKind::UnknownServer, lit("unknown MCP server"))),
                Some(i) => {
                    let c = clients[i].1;
                    if !c.server.allow_tools {
                        Err(HostErr::CapabilityDenied(lit("tools")))
                    } else if c.server.allowed_tools.len() > 0 && !c.server.allowed_tools.contains(t.name) {
                        Err(HostErr::CapabilityDenied(t.name))
                    } else if c.status != ClientStatus::Ready {
                        Err(HostErr::Client(ClientErrorKind::NotReady, lit("MCP client is not ready")))
                    } else {
                        Ok((sid, t, i))
                    }
                },
            },
        }
    }
}

fn contains_name(names: &Vec<Vec<u8>>, name: &[u8]) -> (r: bool)
    ensures
        r == crate::mcp_config::strings_view(names@).contains(name@),
{
    let ghost sv = crate::mcp_config::strings_view(names@);
    let mut i: usize = 0;
    while i < names.len()
        invariant
            0 <= i <= names@.len(),
            sv == crate::mcp_config::strings_view(names@),
            forall|k: int| 0 <= k < i ==> sv[k] != name@,
        decreases names.len() - i,
    {
        if bytes_eq(names[i].as_slice(), name) {
            assert(sv[i as int] == name@);
            return true;
        }
        i = i + 1;
    }
    false
}

fn client_err(e: ClientError) -> (r: McpHostError)
    ensures
        r@ == HostErr::Client(e.kind, e.message@),
{
    McpHostError::Client(e)
}

impl ClientManager {
    /// A request through a server's client.
    fn client_request(&mut self, server_id: &[u8], method: &[u8], params: JsonValue) -> (r: Result<RpcRequest, McpHostError>)
        ensures
            final(self).catalog_view() == old(self).catalog_view(),
            match r {
                Ok(q) => (sfind(old(self).clients(), server_id@) matches Some(i) && sent_by(
                    old(self).clients(),
                    final(self).clients(),
                    i,
                    q,
                    method@,
                    params@,
                )),
                Err(e) => request_refusal(old(self).clients(), server_id@) == Some(e@) && final(self).clients()
                    == old(self).clients(),
            },
    {
        let client = match self.client_mut(server_id) {
            Ok(c) => c,
            Err(e) => return Err(client_err(e)),
        };
        match client.request(method, params) {
            Ok(q) => Ok(q),
            Err(e) => Err(client_err(e)),
        }
    }

    /// Resolves a namespaced tool chosen by the model into one call of
    /// one server.
    pub fn plan_tool_call(&mut self, exposed_name: &[u8], arguments: JsonValue) -> (r: Result<(ToolInvocation, RpcRequest), McpHostError>)
        ensures
            final(self).catalog_view() == old(self).catalog_view(),
            match r {
                Ok((inv, q)) => (plan_spec(old(self).clients(), old(self).catalog_view(), exposed_name@, arguments@) matches Ok((sid, t, i))
                    && inv.server_id@ == sid && inv.tool_name@ == t.name && inv.arguments@ == arguments@
                    && sent_by(old(self).clients(), final(self).clients(), i, q, lit(crate::method::TOOLS_CALL),
                    obj2(lit("name"), JModel::Str(t.name), lit("arguments"), arguments@))),
                Err(e) => plan_spec(old(self).clients(), old(self).catalog_view(), exposed_name@, arguments@) == Err::<(Seq<u8>, crate::mcp_primitives::ToolModel, int), HostErr>(e@)
                    && final(self).clients() == old(self).clients(),
            },
    {
        proof { reveal_strlit("tool arguments must be an object"); reveal_strlit("tools"); reveal_strlit("name"); reveal_strlit("arguments"); reveal_strlit("tools/call"); }
        if arguments.as_object().is_none() {
            return Err(McpHostError::InvalidArguments(ascii_bytes("tool arguments must be an object")));
        }
        let (server_id, tool_name) = match self.catalog().resolve_tool(exposed_name) {
            Some((sid, tool)) => (to_vec(sid), to_vec(tool.name.as_slice())),
            None => return Err(McpHostError::UnknownTool(to_vec(exposed_name))),
        };
        let ghost old_clients = self.clients();
        let client = match self.client_mut(server_id.as_slice()) {
            Ok(c) => c,
            Err(e) => return Err(client_err(e)),
        };
        if !client.server.allow_tools {
            proof {
                assert(self.clients() =~= old_clients);
            }
            return Err(McpHostError::CapabilityDenied(ascii_bytes("tools")));
        }
        if client.server.allowed_tools.len() > 0 && !contains_name(&client.server.allowed_tools, tool_name.as_slice()) {
            proof {
                assert(self.clients() =~= old_clients);
            }
            return Err(McpHostError::CapabilityDenied(tool_name));
        }
        let mut params: Vec<(Vec<u8>, JsonValue)> = Vec::new();
        assert(jentries(params@) =~= seq![]);
        object_insert(&mut params, ascii_bytes("name"), JsonValue::Str(to_vec(tool_name.as_slice())));
        object_insert(&mut params, ascii_bytes("arguments"), arguments.duplicate());
        let request = match client.request(ascii_bytes(crate::method::TOOLS_CALL).as_slice(), JsonValue::Object(params)) {
            Ok(q) => q,
            Err(e) => return Err(client_err(e)),
        };
        Ok((ToolInvocation { server_id, tool_name, arguments }, request))
    }

    /// A `resources/read` request to a server that allows resources.
    pub fn resource_request(&mut self, server_id: &[u8], uri: &[u8]) -> (r: Result<RpcRequest, McpHostError>)
        ensures
            final(self).catalog_view() == old(self).catalog_view(),
            match r {
                Ok(q) => (sfind(old(self).clients(), server_id@) matches Some(i) && old(self).clients()[i].1.server.allow_resources
                    && sent_by(old(self).clients(), final(self).clients(), i, q, lit(crate::method::RESOURCES_READ),
                    obj1(lit("uri"), JModel::Str(uri@)))),
                Err(e) => final(self).clients() == old(self).clients() && match sfind(old(self).clients(), server_id@) {
                    None => e@ == HostErr::Client(ClientErrorKind::UnknownServer, lit("unknown MCP server")),
                    Some(i) => if !old(self).clients()[i].1.server.allow_resources {
                        e@ == HostErr::CapabilityDenied(lit("resources"))
                    } else {
                        old(self).clients()[i].1.status != ClientStatus::Ready && e@ == HostErr::Client(
                            ClientErrorKind::NotReady,
                            lit("MCP client is not ready"),
                        )
                    },
                },
            },
    {
        proof { reveal_strlit("resources"); reveal_strlit("uri"); reveal_strlit("resources/read"); }
        let client = match self.client_mut(server_id) {
            Ok(c) => c,
            Err(e) => return Err(client_err(e)),
        };
        if !client.server.allow_resources {
            return Err(McpHostError::CapabilityDenied(ascii_bytes("resources")));
        }
        let mut params: Vec<(Vec<u8>, JsonValue)> = Vec::new();
        assert(jentries(params@) =~= seq![]);
        object_insert(&mut params, ascii_bytes("uri"), JsonValue::Str(to_vec(uri)));
        match client.request(ascii_bytes(crate::method::RESOURCES_READ).as_slice(), JsonValue::Object(params)) {
            Ok(q) => Ok(q),
            Err(e) => Err(client_err(e)),
        }
    }

    /// A `prompts/get` request to a server that allows prompts.
    pub fn prompt_request(&mut self, server_id: &[u8], name: &[u8], arguments: JsonValue) -> (r: Result<RpcRequest, McpHostError>)
        ensures
            final(self).catalog_view() == old(self).catalog_view(),
            match r {
                Ok(q) => (sfind(old(self).clients(), server_id@) matches Some(i) && old(self).clients()[i].1.server.allow_prompts
                    && sent_by(old(self).clients(), final(self).clients(), i, q, lit(crate::method::PROMPTS_GET),
                    obj2(lit("name"), JModel::Str(name@), lit("arguments"), arguments@))),
                Err(e) => final(self).clients() == old(self).clients() && match sfind(old(self).clients(), server_id@) {
                    None => e@ == HostErr::Client(ClientErrorKind::UnknownServer, lit("unknown MCP server")),
                    Some(i) => if !old(self).clients()[i].1.server.allow_prompts {
                        e@ == HostErr::CapabilityDenied(lit("prompts"))
                    } else {
                        old(self).clients()[i].1.status != ClientStatus::Ready && e@ == HostErr::Client(
                            ClientErrorKind::NotReady,
                            lit("MCP client is not ready"),
                        )
                    },
                },
            },
    {
        proof { reveal_strlit("prompts"); reveal_strlit("name"); reveal_strlit("arguments"); reveal_strlit("prompts/get"); }
        let client = match self.client_mut(server_id) {
            Ok(c) => c,
            Err(e) => return Err(client_err(e)),
        };
        if !client.server.allow_prompts {
            return Err(McpHostError::CapabilityDenied(ascii_bytes("prompts")));
        }
        let mut params: Vec<(Vec<u8>, JsonValue)> = Vec::new();
        assert(jentries(params@) =~= seq![]);
        object_insert(&mut params, ascii_bytes("name"), JsonValue::Str(to_vec(name)));
        object_insert(&mut params, ascii_bytes("arguments"), arguments);
        match client.request(ascii_bytes(crate::method::PROMPTS_GET).as_slice(), JsonValue::Object(params)) {
            Ok(q) => Ok(q),
            Err(e) => Err(client_err(e)),
        }
    }

    /// The request for the next page of a listing.
    pub fn next_page_request(&mut self, server_id: &[u8], kind: ListKind, cursor: &[u8]) -> (r: Result<RpcRequest, McpHostError>)
        ensures
            final(self).catalog_view() == old(self).catalog_view(),
            match r {
                Ok(q) => (kind_allowed(kind, old(self).clients(), server_id@) && (sfind(old(self).clients(), server_id@) matches Some(i)
                    && sent_by(old(self).clients(), final(self).clients(), i, q, lit(kind_method(kind)),
                    obj1(lit("cursor"), JModel::Str(cursor@))))),
                Err(e) => final(self).clients() == old(self).clients() && if !kind_allowed(kind, old(self).clients(), server_id@) {
                    e@ == HostErr::CapabilityDenied(lit(kind_method(kind)))
                } else {
                    request_refusal(old(self).clients(), server_id@) == Some(e@)
                },
            },
    {
        proof { reveal_strlit("cursor"); }
        if !kind.is_allowed(self, server_id) {
            return Err(McpHostError::CapabilityDenied(kind.method_bytes()));
        }
        let mut params: Vec<(Vec<u8>, JsonValue)> = Vec::new();
        assert(jentries(params@) =~= seq![]);
        object_insert(&mut params, ascii_bytes("cursor"), JsonValue::Str(to_vec(cursor)));
        let m = kind.method_bytes();
        self.client_request(server_id, m.as_slice(), JsonValue::Object(params))
    }
}


/// The more restrictive of two cache scopes.
pub open spec fn spec_most_restrictive(a: CacheScope, b: CacheScope) -> CacheScope {
    if a == CacheScope::NoCache || b == CacheScope::NoCache {
        CacheScope::NoCache
    } else if a == CacheScope::Private || b == CacheScope::Private {
        CacheScope::Private
    } else {
        CacheScope::Public
    }
}

fn most_restrictive(left: CacheScope, right: CacheScope) -> (r: CacheScope)
    ensures
        r == spec_most_restrictive(left, right),
{
    match (left, right) {
        (CacheScope::NoCache, _) | (_, CacheScope::NoCache) => CacheScope::NoCache,
        (CacheScope::Private, _) | (_, CacheScope::Private) => CacheScope::Private,
        (CacheScope::Public, CacheScope::Public) => CacheScope::Public,
    }
}

/// A catalog after a page's cache hints: the shorter time-to-live and the
/// more restrictive scope.
pub open spec fn merge_cache(c: CatalogModel, ttl: Option<u64>, scope: CacheScope) -> CatalogModel {
    CatalogModel {
        ttl_ms: match (c.ttl_ms, ttl) {
            (Some(a), Some(b)) => Some(if a <= b { a } else { b }),
            (None, b) => b,
            (a, None) => a,
        },
        cache_scope: spec_most_restrictive(c.cache_scope, scope),
        ..c
    }
}

fn apply_cache(catalog: &mut ServerCatalog, ttl_ms: Option<u64>, scope: CacheScope)
    ensures
        final(catalog)@ == merge_cache(old(catalog)@, ttl_ms, scope),
{
    catalog.ttl_ms = match (catalog.ttl_ms, ttl_ms) {
        (Some(current), Some(incoming)) => Some(if current <= incoming { current } else { incoming }),
        (None, incoming) => incoming,
        (current, None) => current,
    };
    catalog.cache_scope = most_restrictive(catalog.cache_scope, scope);
}

/// The result of a response, or the failure it stands for.
pub open spec fn result_of(result: Option<JModel>, error: Option<(i32, Seq<u8>, Option<JModel>)>) -> Result<JModel, HostErr> {
    match error {
        Some((c, m, d)) => Err(HostErr::Remote(c, m, d)),
        None => match result {
            None => Err(HostErr::InvalidResult(lit("response result is missing"))),
            Some(r) => Ok(r),
        },
    }
}

fn response_result(response: &RpcResponse) -> (r: Result<&JsonValue, McpHostError>)
    ensures
        match r {
            Ok(v) => result_of(jopt(response.result), err_model(response.error)) == Ok::<JModel, HostErr>(v@),
            Err(e) => result_of(jopt(response.result), err_model(response.error)) == Err::<JModel, HostErr>(e@),
        },
{
    proof { reveal_strlit("response result is missing"); }
    match &response.error {
        Some(e) => return Err(McpHostError::Remote(e.duplicate())),
        None => {},
    }
    match &response.result {
        Some(v) => Ok(v),
        None => Err(McpHostError::InvalidResult(ascii_bytes("response result is missing"))),
    }
}

/// An empty catalog for a server.
pub open spec fn empty_catalog(sid: Seq<u8>) -> CatalogModel {
    CatalogModel {
        server_id: sid,
        tools: seq![],
        resources: seq![],
        prompts: seq![],
        fetched_at_ms: 0,
        ttl_ms: None,
        cache_scope: CacheScope::NoCache,
    }
}

/// The catalog a page is merged into: a fresh one for a first page, else
/// the one held (or a fresh one), stamped with the fetch time.
pub open spec fn base_catalog(cat: Seq<(Seq<u8>, CatalogModel)>, sid: Seq<u8>, first: bool, fetched: u64) -> CatalogModel {
    let c = if first {
        empty_catalog(sid)
    } else {
        match sget(cat, sid) {
            Some(c) => c,
            None => empty_catalog(sid),
        }
    };
    CatalogModel { fetched_at_ms: fetched, ..c }
}

/// The catalog after merging one listing page (before it is sorted), with
/// the page's next cursor; or the failure.
pub open spec fn ingest_spec(
    cat: Seq<(Seq<u8>, CatalogModel)>,
    sid: Seq<u8>,
    kind: ListKind,
    result: Result<JModel, HostErr>,
    fetched: u64,
    first: bool,
) -> Result<(CatalogModel, Option<Seq<u8>>), HostErr> {
    match result {
        Err(e) => Err(e),
        Ok(res) => {
            let base = base_catalog(cat, sid, first, fetched);
            match kind {
                ListKind::Tools => match tool_page_of(res) {
                    Err(m) => Err(HostErr::InvalidResult(m)),
                    Ok(p) => Ok((merge_cache(CatalogModel { tools: if first { p.items } else { base.tools + p.items }, ..base }, p.ttl_ms, p.cache_scope), p.next_cursor)),
                },
                ListKind::Resources => match resource_page_of(res) {
                    Err(m) => Err(HostErr::InvalidResult(m)),
                    Ok(p) => Ok((merge_cache(CatalogModel { resources: if first { p.items } else { base.resources + p.items }, ..base }, p.ttl_ms, p.cache_scope), p.next_cursor)),
                },
                ListKind::Prompts => match prompt_page_of(res) {
                    Err(m) => Err(HostErr::InvalidResult(m)),
                    Ok(p) => Ok((merge_cache(CatalogModel { prompts: if first { p.items } else { base.prompts + p.items }, ..base }, p.ttl_ms, p.cache_scope), p.next_cursor)),
                },
            }
        },
    }
}

impl ClientManager {
    /// Merges one listing page into the server's catalog (a first page
    /// starts it afresh) and gives back the cursor of the next page.
    pub fn ingest_list_page(
        &mut self,
        server_id: &[u8],
        kind: ListKind,
        response: &RpcResponse,
        fetched_at_ms: u64,
        first_page: bool,
    ) -> (r: Result<Option<Vec<u8>>, McpHostError>)
        ensures
            final(self).clients() == old(self).clients(),
            match r {
                Ok(cursor) => (ingest_spec(old(self).catalog_view(), server_id@, kind, result_of(jopt(response.result), err_model(response.error)), fetched_at_ms, first_page)
                    matches Ok((m, next)) && next == sopt(cursor) && final(self).catalog_view() == sinsert(old(self).catalog_view(), m.server_id, msorted(m))),
                Err(e) => ingest_spec(old(self).catalog_view(), server_id@, kind, result_of(jopt(response.result), err_model(response.error)), fetched_at_ms, first_page)
                    == Err::<(CatalogModel, Option<Seq<u8>>), HostErr>(e@) && final(self).catalog_view() == old(self).catalog_view(),
            },
    {
        let result = response_result(response)?;
        let mut catalog = if first_page {
            ServerCatalog::new(server_id)
        } else {
            match self.catalog().server(server_id) {
                Some(c) => c.duplicate(),
                None => ServerCatalog::new(server_id),
            }
        };
        catalog.fetched_at_ms = fetched_at_ms;
        let cursor = match kind {
            ListKind::Tools => {
                let mut page = match Page::tools(result) {
                    Ok(p) => p,
                    Err(e) => return Err(McpHostError::InvalidResult(e.message)),
                };
                let ghost items = tool_views(page.items@);
                if first_page {
                    catalog.tools = page.items;
                } else {
                    let ghost t0 = catalog.tools@;
                    catalog.tools.append(&mut page.items);
                    assert(tool_views(catalog.tools@) =~= tool_views(t0) + items);
                }
                apply_cache(&mut catalog, page.ttl_ms, page.cache_scope);
                page.next_cursor
            },
            ListKind::Resources => {
                let mut page = match Page::resources(result) {
                    Ok(p) => p,
                    Err(e) => return Err(McpHostError::InvalidResult(e.message)),
                };
                let ghost items = resource_views(page.items@);
                if first_page {
                    catalog.resources = page.items;
                } else {
                    let ghost t0 = catalog.resources@;
                    catalog.resources.append(&mut page.items);
                    assert(resource_views(catalog.resources@) =~= resource_views(t0) + items);
                }
                apply_cache(&mut catalog, page.ttl_ms, page.cache_scope);
                page.next_cursor
            },
            ListKind::Prompts => {
                let mut page = match Page::prompts(result) {
                    Ok(p) => p,
                    Err(e) => return Err(McpHostError::InvalidResult(e.message)),
                };
                let ghost items = prompt_views(page.items@);
                if first_page {
                    catalog.prompts = page.items;
                } else {
                    let ghost t0 = catalog.prompts@;
                    catalog.prompts.append(&mut page.items);
                    assert(prompt_views(catalog.prompts@) =~= prompt_views(t0) + items);
                }
                apply_cache(&mut catalog, page.ttl_ms, page.cache_scope);
                page.next_cursor
            },
        };
        self.catalog_mut().replace(catalog);
        Ok(cursor)
    }
}


pub open spec fn required_msg() -> Seq<u8> {
    lit("required result string is missing")
}

pub open spec fn wrong_type_msg() -> Seq<u8> {
    lit("optional result string has wrong type")
}

fn required_string(value: &JsonValue, key: &[u8]) -> (r: Result<Vec<u8>, McpHostError>)
    ensures
        match r {
            Ok(s) => str_at(value@, key@) == Some(s@),
            Err(e) => str_at(value@, key@) is None && e@ == HostErr::InvalidResult(required_msg()),
        },
{
    proof { reveal_strlit("required result string is missing"); }
    match get_str(value, key) {
        Some(s) => Ok(s),
        None => Err(McpHostError::InvalidResult(ascii_bytes("required result string is missing"))),
    }
}

fn optional_string(value: &JsonValue, key: &[u8]) -> (r: Result<Option<Vec<u8>>, McpHostError>)
    ensures
        match r {
            Ok(o) => opt_str_at(value@, key@) == Ok::<Option<Seq<u8>>, ()>(sopt(o)),
            Err(e) => opt_str_at(value@, key@) is Err && e@ == HostErr::InvalidResult(wrong_type_msg()),
        },
{
    proof { reveal_strlit("optional result string has wrong type"); }
    match get_opt_str(value, key) {
        Ok(o) => Ok(o),
        Err(_) => Err(McpHostError::InvalidResult(ascii_bytes("optional result string has wrong type"))),
    }
}

/// One block of a tool result's content.
#[derive(Debug)]
pub enum Content {
    Text { text: Vec<u8>, annotations: Option<JsonValue> },
    Image { data: Vec<u8>, mime_type: Vec<u8>, annotations: Option<JsonValue> },
    Audio { data: Vec<u8>, mime_type: Vec<u8>, annotations: Option<JsonValue> },
    ResourceLink { uri: Vec<u8>, name: Vec<u8>, mime_type: Option<Vec<u8>>, annotations: Option<JsonValue> },
    EmbeddedResource(JsonValue),
    Unknown(JsonValue),
}

/// Model of a content block.
pub enum ContentModel {
    Text(Seq<u8>, Option<JModel>),
    Image(Seq<u8>, Seq<u8>, Option<JModel>),
    Audio(Seq<u8>, Seq<u8>, Option<JModel>),
    ResourceLink(Seq<u8>, Seq<u8>, Option<Seq<u8>>, Option<JModel>),
    EmbeddedResource(JModel),
    Unknown(JModel),
}

impl Content {
    pub open spec fn view(&self) -> ContentModel {
        match self {
            Content::Text { text, annotations } => ContentModel::Text(text@, jopt(*annotations)),
            Content::Image { data, mime_type, annotations } => ContentModel::Image(data@, mime_type@, jopt(*annotations)),
            Content::Audio { data, mime_type, annotations } => ContentModel::Audio(data@, mime_type@, jopt(*annotations)),
            Content::ResourceLink { uri, name, mime_type, annotations } => ContentModel::ResourceLink(uri@, name@, sopt(*mime_type), jopt(*annotations)),
            Content::EmbeddedResource(v) => ContentModel::EmbeddedResource(v@),
            Content::Unknown(v) => ContentModel::Unknown(v@),
        }
    }
}

/// What a content block reads as, by its `type`; a failure's message.
pub open spec fn content_of(v: JModel) -> Result<ContentModel, Seq<u8>> {
    let ann = jget(v, lit("annotations"));
    match str_at(v, lit("type")) {
        None => Err(lit("content type is missing")),
        Some(kind) => if kind == lit("text") {
            match str_at(v, lit("text")) {
                None => Err(required_msg()),
                Some(t) => Ok(ContentModel::Text(t, ann)),
            }
        } else if kind == lit("image") || kind == lit("audio") {
            match (str_at(v, lit("data")), str_at(v, lit("mimeType"))) {
                (Some(d), Some(m)) => Ok(if kind == lit("image") {
                    ContentModel::Image(d, m, ann)
                } else {
                    ContentModel::Audio(d, m, ann)
                }),
                _ => Err(required_msg()),
            }
        } else if kind == lit("resource_link") {
            match (str_at(v, lit("uri")), str_at(v, lit("name")), opt_str_at(v, lit("mimeType"))) {
                (Some(u), Some(n), Ok(m)) => Ok(ContentModel::ResourceLink(u, n, m, ann)),
                (Some(_), Some(_), Err(_)) => Err(wrong_type_msg()),
                _ => Err(required_msg()),
            }
        } else if kind == lit("resource") {
            Ok(ContentModel::EmbeddedResource(v))
        } else {
            Ok(ContentModel::Unknown(v))
        },
    }
}

impl Content {
    pub fn from_json(value: &JsonValue) -> (r: Result<Content, McpHostError>)
        ensures
            match r {
                Ok(c) => content_of(value@) == Ok::<ContentModel, Seq<u8>>(c@),
                Err(e) => content_of(value@) matches Err(m) && e@ == HostErr::InvalidResult(m),
            },
    {
        proof {
            reveal_strlit("type"); reveal_strlit("annotations"); reveal_strlit("text"); reveal_strlit("image");
            reveal_strlit("audio"); reveal_strlit("resource_link"); reveal_strlit("resource"); reveal_strlit("data");
            reveal_strlit("mimeType"); reveal_strlit("uri"); reveal_strlit("name"); reveal_strlit("content type is missing");
        }
        let kind = match get_str(value, ascii_bytes("type").as_slice()) {
            Some(k) => k,
            None => return Err(McpHostError::InvalidResult(ascii_bytes("content type is missing"))),
        };
        let annotations = crate::json::duplicate_opt(value.get(ascii_bytes("annotations").as_slice()));
        if bytes_eq(kind.as_slice(), ascii_bytes("text").as_slice()) {
            let text = required_string(value, ascii_bytes("text").as_slice())?;
            Ok(Content::Text { text, annotations })
        } else if bytes_eq(kind.as_slice(), ascii_bytes("image").as_slice()) {
            let data = required_string(value, ascii_bytes("data").as_slice())?;
            let mime_type = required_string(value, ascii_bytes("mimeType").as_slice())?;
            Ok(Content::Image { data, mime_type, annotations })
        } else if bytes_eq(kind.as_slice(), ascii_bytes("audio").as_slice()) {
            let data = required_string(value, ascii_bytes("data").as_slice())?;
            let mime_type = required_string(value, ascii_bytes("mimeType").as_slice())?;
            Ok(Content::Audio { data, mime_type, annotations })
        } else if bytes_eq(kind.as_slice(), ascii_bytes("resource_link").as_slice()) {
            let uri = required_string(value, ascii_bytes("uri").as_slice())?;
            let name = required_string(value, ascii_bytes("name").as_slice())?;
            let mime_type = optional_string(value, ascii_bytes("mimeType").as_slice())?;
            Ok(Content::ResourceLink { uri, name, mime_type, annotations })
        } else if bytes_eq(kind.as_slice(), ascii_bytes("resource").as_slice()) {
            Ok(Content::EmbeddedResource(value.duplicate()))
        } else {
            Ok(Content::Unknown(value.duplicate()))
        }
    }
}

/// Content blocks read in order; the first failure stops the reading.
pub open spec fn contents_of(vs: Seq<JModel>) -> Result<Seq<ContentModel>, Seq<u8>>
    decreases vs.len(),
{
    if vs.len() == 0 {
        Ok(seq![])
    } else {
        match contents_of(vs.drop_last()) {
            Err(e) => Err(e),
            Ok(xs) => match content_of(vs.last()) {
                Err(e) => Err(e),
                Ok(x) => Ok(xs.push(x)),
            },
        }
    }
}

proof fn lemma_contents_err(vs: Seq<JModel>, k: int)
    requires
        0 <= k <= vs.len(),
        contents_of(vs.subrange(0, k)) is Err,
    ensures
        contents_of(vs) == contents_of(vs.subrange(0, k)),
    decreases vs.len() - k,
{
    if k < vs.len() {
        assert(vs.subrange(0, k + 1).drop_last() =~= vs.subrange(0, k));
        lemma_contents_err(vs, k + 1);
    } else {
        assert(vs.subrange(0, k) =~= vs);
    }
}

pub open spec fn content_views(s: Seq<Content>) -> Seq<ContentModel> {
    s.map_values(|c: Content| c@)
}

/// How a tool call ended.
#[derive(Debug)]
pub enum CallOutcome {
    Complete { content: Vec<Content>, structured_content: Option<JsonValue>, is_error: bool },
    InputRequired { input_requests: JsonValue, request_state: Vec<u8> },
    Extension(JsonValue),
}

/// Model of a call outcome.
pub enum OutcomeModel {
    Complete(Seq<ContentModel>, Option<JModel>, bool),
    InputRequired(JModel, Seq<u8>),
    Extension(JModel),
}

impl CallOutcome {
    pub open spec fn view(&self) -> OutcomeModel {
        match self {
            CallOutcome::Complete { content, structured_content, is_error } => OutcomeModel::Complete(
                content_views(content@),
                jopt(*structured_content),
                *is_error,
            ),
            CallOutcome::InputRequired { input_requests, request_state } => OutcomeModel::InputRequired(
                input_requests@,
                request_state@,
            ),
            CallOutcome::Extension(v) => OutcomeModel::Extension(v@),
        }
    }
}

/// What a call result reads as, by its `resultType`; a failure's message.
pub open spec fn outcome_of(result: JModel) -> Result<OutcomeModel, Seq<u8>> {
    match str_at(result, lit("resultType")) {
        None => Err(lit("resultType is required")),
        Some(t) => if t == lit("complete") {
            let content: Result<Seq<ContentModel>, Seq<u8>> = match jget(result, lit("content")) {
                None => Ok(seq![]),
                Some(JModel::Array(vs)) => contents_of(vs),
                Some(_) => Err(lit("tool content must be an array")),
            };
            match content {
                Err(e) => Err(e),
                Ok(c) => Ok(OutcomeModel::Complete(
                    c,
                    jget(result, lit("structuredContent")),
                    jget(result, lit("isError")) == Some(JModel::Bool(true)),
                )),
            }
        } else if t == lit("input_required") {
            match jget(result, lit("inputRequests")) {
                None => Err(lit("input_required result needs inputRequests")),
                Some(ir) => match str_at(result, lit("requestState")) {
                    None => Err(required_msg()),
                    Some(st) => Ok(OutcomeModel::InputRequired(ir, st)),
                },
            }
        } else {
            Ok(OutcomeModel::Extension(result))
        },
    }
}

/// What a response reads as as a call outcome.
pub open spec fn call_outcome_of(result: Result<JModel, HostErr>) -> Result<OutcomeModel, HostErr> {
    match result {
        Err(e) => Err(e),
        Ok(r) => match outcome_of(r) {
            Err(m) => Err(HostErr::InvalidResult(m)),
            Ok(o) => Ok(o),
        },
    }
}

impl CallOutcome {
    pub fn from_response(response: &RpcResponse) -> (r: Result<CallOutcome, McpHostError>)
        ensures
            match r {
                Ok(o) => call_outcome_of(result_of(jopt(response.result), err_model(response.error))) == Ok::<OutcomeModel, HostErr>(o@),
                Err(e) => call_outcome_of(result_of(jopt(response.result), err_model(response.error))) == Err::<OutcomeModel, HostErr>(e@),
            },
    {
        proof {
            reveal_strlit("resultType"); reveal_strlit("complete"); reveal_strlit("content"); reveal_strlit("structuredContent");
            reveal_strlit("isError"); reveal_strlit("input_required"); reveal_strlit("inputRequests"); reveal_strlit("requestState");
            reveal_strlit("resultType is required"); reveal_strlit("tool content must be an array");
            reveal_strlit("input_required result needs inputRequests");
        }
        let result = response_result(response)?;
        let result_type = match get_str(result, ascii_bytes("resultType").as_slice()) {
            Some(t) => t,
            None => return Err(McpHostError::InvalidResult(ascii_bytes("resultType is required"))),
        };
        if bytes_eq(result_type.as_slice(), ascii_bytes("complete").as_slice()) {
            let mut content: Vec<Content> = Vec::new();
            match result.get(ascii_bytes("content").as_slice()) {
                None => {
                    assert(content_views(content@) =~= seq![]);
                },
                Some(JsonValue::Array(vs)) => {
                    let mut i: usize = 0;
                    assert(content_views(content@) =~= seq![]);
                    assert(vs@.subrange(0, 0) =~= Seq::<JsonValue>::empty());
                    assert(crate::json::jviews(vs@.subrange(0, 0)) =~= seq![]);
                    while i < vs.len()
                        invariant
                            0 <= i <= vs@.len(),
                            contents_of(crate::json::jviews(vs@.subrange(0, i as int))) == Ok::<Seq<ContentModel>, Seq<u8>>(content_views(content@)),
                            jget(result@, lit("content")) == Some(JModel::Array(crate::json::jviews(vs@))),
                            result_of(jopt(response.result), err_model(response.error)) == Ok::<JModel, HostErr>(result@),
                            str_at(result@, lit("resultType")) == Some(lit("complete")),
                        decreases vs.len() - i,
                    {
                        let ghost cur = crate::json::jviews(vs@.subrange(0, i + 1));
                        proof {
                            assert(vs@.subrange(0, i + 1).drop_last() =~= vs@.subrange(0, i as int));
                            assert(cur.drop_last() =~= crate::json::jviews(vs@.subrange(0, i as int)));
                            assert(cur.last() == vs@[i as int]@);
                        }
                        let x = match Content::from_json(&vs[i]) {
                            Ok(x) => x,
                            Err(e) => {
                                proof {
                                    crate::json::lemma_jviews_len(vs@);
                                    assert(crate::json::jviews(vs@).subrange(0, i + 1) =~= cur) by {
                                        crate::json::lemma_jviews_len(vs@.subrange(0, i + 1));
                                        assert forall|k: int| 0 <= k < i + 1 implies crate::json::jviews(vs@)[k] == cur[k] by {
                                            crate::json::lemma_jviews_index(vs@, k);
                                            crate::json::lemma_jviews_index(vs@.subrange(0, i + 1), k);
                                        }
                                    }
                                    lemma_contents_err(crate::json::jviews(vs@), i + 1);
                                }
                                return Err(e);
                            },
                        };
                        let ghost before = content@;
                        content.push(x);
                        assert(content_views(content@) =~= content_views(before).push(x@));
                        i = i + 1;
                    }
                    assert(vs@.subrange(0, i as int) =~= vs@);
                },
                Some(_) => return Err(McpHostError::InvalidResult(ascii_bytes("tool content must be an array"))),
            }
            let structured_content = crate::json::duplicate_opt(result.get(ascii_bytes("structuredContent").as_slice()));
            let is_error = match result.get(ascii_bytes("isError").as_slice()) {
                Some(v) => match v.as_bool() {
                    Some(b) => b,
                    None => false,
                },
                None => false,
            };
            Ok(CallOutcome::Complete { content, structured_content, is_error })
        } else if bytes_eq(result_type.as_slice(), ascii_bytes("input_required").as_slice()) {
            let input_requests = match result.get(ascii_bytes("inputRequests").as_slice()) {
                Some(v) => v.duplicate(),
                None => return Err(McpHostError::InvalidResult(ascii_bytes("input_required result needs inputRequests"))),
            };
            let request_state = required_string(result, ascii_bytes("requestState").as_slice())?;
            Ok(CallOutcome::InputRequired { input_requests, request_state })
        } else {
            Ok(CallOutcome::Extension(result.duplicate()))
        }
    }
}

/// A call waiting for input, to be resumed with the server's state.
#[derive(Debug)]
pub struct Continuation {
    pub server_id: Vec<u8>,
    pub method: Vec<u8>,
    pub original_params: JsonValue,
    pub request_state: Vec<u8>,
}

/// The parameters of a resumed call: the original ones without `_meta`,
/// with the request state and the input responses.
pub open spec fn resume_params(original: JModel, state: Seq<u8>, responses: JModel) -> JModel {
    JModel::Object(
        jinsert(
            jinsert(jremove(members_of(original), lit("_meta")), lit("requestState"), JModel::Str(state)),
            lit("inputResponses"),
            responses,
        ),
    )
}

impl Continuation {
    /// The continuation of a call that needs input.
    pub fn from_outcome(server_id: &[u8], request: &RpcRequest, outcome: &CallOutcome) -> (r: Option<Continuation>)
        ensures
            match r {
                Some(c) => outcome@ matches OutcomeModel::InputRequired(_, st) && c.server_id@ == server_id@
                    && c.method@ == request.method@ && c.original_params@ == request.params@ && c.request_state@ == st,
                None => !(outcome@ is InputRequired),
            },
    {
        match outcome {
            CallOutcome::InputRequired { request_state, .. } => Some(Continuation {
                server_id: to_vec(server_id),
                method: to_vec(request.method.as_slice()),
                original_params: request.params.duplicate(),
                request_state: to_vec(request_state.as_slice()),
            }),
            _ => None,
        }
    }

    /// The resumed call: the original method with the request state and
    /// the input responses (which must be an object), sent afresh.
    pub fn resume(self, manager: &mut ClientManager, input_responses: JsonValue) -> (r: Result<RpcRequest, McpHostError>)
        ensures
            final(manager).catalog_view() == old(manager).catalog_view(),
            match r {
                Ok(q) => (input_responses@ is Object && (sfind(old(manager).clients(), self.server_id@) matches Some(i) && sent_by(
                    old(manager).clients(),
                    final(manager).clients(),
                    i,
                    q,
                    self.method@,
                    resume_params(self.original_params@, self.request_state@, input_responses@),
                ))),
                Err(e) => final(manager).clients() == old(manager).clients() && if !(input_responses@ is Object) {
                    e@ == HostErr::InvalidArguments(lit("inputResponses must be an object"))
                } else {
                    request_refusal(old(manager).clients(), self.server_id@) == Some(e@)
                },
            },
    {
        proof { reveal_strlit("inputResponses must be an object"); reveal_strlit("_meta"); reveal_strlit("requestState"); reveal_strlit("inputResponses"); }
        if input_responses.as_object().is_none() {
            return Err(McpHostError::InvalidArguments(ascii_bytes("inputResponses must be an object")));
        }
        let mut params = match self.original_params.as_object() {
            Some(m) => crate::json::duplicate_members(m),
            None => {
                let v: Vec<(Vec<u8>, JsonValue)> = Vec::new();
                assert(jentries(v@) =~= seq![]);
                v
            },
        };
        object_remove(&mut params, ascii_bytes("_meta").as_slice());
        object_insert(&mut params, ascii_bytes("requestState"), JsonValue::Str(to_vec(self.request_state.as_slice())));
        object_insert(&mut params, ascii_bytes("inputResponses"), input_responses);
        manager.client_request(self.server_id.as_slice(), self.method.as_slice(), JsonValue::Object(params))
    }
}

} // verus!
