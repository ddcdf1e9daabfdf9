//! The MCP host runtime of the agent: one client per configured server,
//! the policy firewall in front of every tool call, and the tool results
//! the model sees for `mcp.*` requests.

use vstd::prelude::*;

use crate::json::{get_str, jget, jopt, sopt, json_u64, jtext, str_at, JModel, JsonValue, object_insert, empty_object, jentries, jinsert};
use crate::mcp_client::{client_meta, clients_from, id_text, sat_add, ClientManager, ClientModel, ClientStatus};
use crate::mcp_config::{spec_namespaced, spec_parse_config, McpConfig, ServerConfig, ServerModel};
use crate::mcp_execution::{ingest_spec, obj2, plan_spec, result_of, HostErr, ListKind, McpHostError};
use crate::mcp_primitives::{all_tools, ct_view, ct_views, msorted, resolve_spec, CatalogModel, ToolModel};
use crate::mcp_security::{
    check_spec, fresh_budget, redact, resolve_auth, spec_record, too_long_notice, CredentialResolver, GuardedResult, PolicyDecision,
    PolicyFirewall, Provenance, ServerBudget, Verdict,
};
use crate::mcp_transport::{decode_spec, rmodel, HttpTransport, McpHttpClient, TransportErrorKind, Header};
use crate::mcp_wire::{err_model, with_meta, McpError, RidModel, RpcRequest, RpcResponse};
use crate::registry::{failure_model, success_model, ResultModel, ToolResult};
use crate::sorted_map::{sget, sinsert};
use crate::text::{ascii_bytes, dec, lit, push_all, push_dec, to_vec};

verus! {

/// The name of a client status.
pub open spec fn status_text(s: ClientStatus) -> Seq<u8> {
    match s {
        ClientStatus::Configured => lit("configured"),
        ClientStatus::Discovering => lit("discovering"),
        ClientStatus::Ready => lit("ready"),
        ClientStatus::LegacyAdapterRequired => lit("legacy_adapter_required"),
        ClientStatus::Degraded => lit("degraded"),
        ClientStatus::Disabled => lit("disabled"),
    }
}

/// The name of a client status, as shown to the model.
pub fn status_name(status: ClientStatus) -> (r: &'static str)
    ensures
        r.is_ascii(),
        lit(r) == status_text(status),
{
    proof {
        reveal_strlit("configured");
        reveal_strlit("discovering");
        reveal_strlit("ready");
        reveal_strlit("legacy_adapter_required");
        reveal_strlit("degraded");
        reveal_strlit("disabled");
    }
    match status {
        ClientStatus::Configured => "configured",
        ClientStatus::Discovering => "discovering",
        ClientStatus::Ready => "ready",
        ClientStatus::LegacyAdapterRequired => "legacy_adapter_required",
        ClientStatus::Degraded => "degraded",
        ClientStatus::Disabled => "disabled",
    }
}

/// A non-empty string argument.
pub open spec fn req_str(args: JModel, key: Seq<u8>) -> Option<Seq<u8>> {
    match str_at(args, key) {
        Some(s) => if s.len() > 0 {
            Some(s)
        } else {
            None
        },
        None => None,
    }
}

/// The reply to a tool call whose required arguments are missing.
pub open spec fn invalid_args_reply(call_id: Seq<u8>) -> ResultModel {
    failure_model(call_id, lit("invalid_args"), lit("required string argument is missing"), false)
}

/// A required, non-empty string argument.
pub fn required_string<'a>(args: &'a JsonValue, key: &[u8]) -> (r: Option<&'a [u8]>)
    ensures
        match r {
            Some(s) => req_str(args@, key@) == Some(s@),
            None => req_str(args@, key@) is None,
        },
{
    match args.get(key) {
        Some(v) => match v.as_str() {
            Some(s) => if s.len() > 0 {
                Some(s)
            } else {
                None
            },
            None => None,
        },
        None => None,
    }
}

fn invalid_args(call_id: &[u8]) -> (r: ToolResult)
    ensures
        r@ == invalid_args_reply(call_id@),
{
    proof {
        reveal_strlit("invalid_args");
        reveal_strlit("required string argument is missing");
    }
    ToolResult::failure(
        call_id,
        ascii_bytes("invalid_args").as_slice(),
        ascii_bytes("required string argument is missing").as_slice(),
        false,
    )
}

fn failure_of(call_id: &[u8], code: &str, message: &str, retryable: bool) -> (r: ToolResult)
    requires
        code.is_ascii(),
        message.is_ascii(),
    ensures
        r@ == failure_model(call_id@, lit(code), lit(message), retryable),
{
    ToolResult::failure(call_id, ascii_bytes(code).as_slice(), ascii_bytes(message).as_slice(), retryable)
}

/// The tool-result code of a host error.
pub open spec fn host_code(e: HostErr) -> Seq<u8> {
    match e {
        HostErr::Client(_, _) => lit("client_error"),
        HostErr::Remote(_, _, _) => lit("remote_error"),
        HostErr::UnknownTool(_) => lit("unknown_tool"),
        HostErr::CapabilityDenied(_) => lit("policy_denied"),
        HostErr::InvalidArguments(_) => lit("invalid_args"),
        HostErr::InvalidResult(_) => lit("invalid_result"),
    }
}

/// The message of a host error.
pub open spec fn host_message(e: HostErr) -> Seq<u8> {
    match e {
        HostErr::Client(_, m) => m,
        HostErr::Remote(_, m, _) => m,
        HostErr::UnknownTool(m) => m,
        HostErr::CapabilityDenied(m) => m,
        HostErr::InvalidArguments(m) => m,
        HostErr::InvalidResult(m) => m,
    }
}

/// The failed tool result for a host error.
pub fn host_error(call_id: &[u8], error: McpHostError) -> (r: ToolResult)
    ensures
        r@ == failure_model(call_id@, host_code(error@), host_message(error@), false),
{
    proof {
        reveal_strlit("client_error");
        reveal_strlit("remote_error");
        reveal_strlit("unknown_tool");
        reveal_strlit("policy_denied");
        reveal_strlit("invalid_args");
        reveal_strlit("invalid_result");
    }
    let (code, message) = match error {
        McpHostError::Client(e) => (ascii_bytes("client_error"), e.message),
        McpHostError::Remote(e) => (ascii_bytes("remote_error"), e.message),
        McpHostError::UnknownTool(m) => (ascii_bytes("unknown_tool"), m),
        McpHostError::CapabilityDenied(m) => (ascii_bytes("policy_denied"), m),
        McpHostError::InvalidArguments(m) => (ascii_bytes("invalid_args"), m),
        McpHostError::InvalidResult(m) => (ascii_bytes("invalid_result"), m),
    };
    ToolResult::failure(call_id, code.as_slice(), message.as_slice(), false)
}

/// The message of a response without a result: its error's, else a
/// default.
pub open spec fn remote_message(e: Option<(i32, Seq<u8>, Option<JModel>)>) -> Seq<u8> {
    match e {
        Some((_, m, _)) => m,
        None => lit("MCP response had no result"),
    }
}

/// The failed tool result for a response that carried no result.
pub fn remote_failure(call_id: &[u8], error: Option<McpError>) -> (r: ToolResult)
    ensures
        r@ == failure_model(call_id@, lit("remote_error"), remote_message(err_model(error)), false),
{
    proof {
        reveal_strlit("remote_error");
        reveal_strlit("MCP response had no result");
    }
    let message = match error {
        Some(e) => e.message,
        None => ascii_bytes("MCP response had no result"),
    };
    ToolResult::failure(call_id, ascii_bytes("remote_error").as_slice(), message.as_slice(), false)
}

/// What the model sees of a remote result: secrets redacted, and a short
/// notice in place of a result whose text exceeds the server's limit.
pub open spec fn guard(v: JModel, max: usize) -> JModel {
    if jtext(redact(v)).len() > max {
        too_long_notice()
    } else {
        redact(v)
    }
}

/// Model of a failed exchange: code, message and retryability.
pub open spec fn etup(e: (Vec<u8>, Vec<u8>, bool)) -> (Seq<u8>, Seq<u8>, bool) {
    (e.0@, e.1@, e.2)
}

/// The tool result of an exchange: the guarded result, the remote error,
/// or the local failure.
pub open spec fn exchange_reply(
    call_id: Seq<u8>,
    max: usize,
    outcome: Result<(RidModel, Option<JModel>, Option<(i32, Seq<u8>, Option<JModel>)>), (Seq<u8>, Seq<u8>, bool)>,
) -> ResultModel {
    match outcome {
        Ok((_, Some(v), _)) => success_model(call_id, guard(v, max), 0),
        Ok((_, None, e)) => failure_model(call_id, lit("remote_error"), remote_message(e), false),
        Err((c, m, rt)) => failure_model(call_id, c, m, rt),
    }
}

/// Whether an exchange with a server whose replies are limited to `max`
/// bytes can end so: a response decoded from some HTTP reply, a
/// credential failure (not retryable), or a transport failure.
pub open spec fn possible_outcome(
    o: Result<(RidModel, Option<JModel>, Option<(i32, Seq<u8>, Option<JModel>)>), (Seq<u8>, Seq<u8>, bool)>,
    max: usize,
) -> bool {
    match o {
        Ok(q) => exists|st: u16, hs: Seq<Header>, body: Seq<u8>|
            #[trigger] decode_spec(st, hs, body, max) == Ok::<_, (TransportErrorKind, Seq<u8>, bool, Option<u16>)>(q),
        Err((c, _, rt)) => (c == lit("credential_error") && !rt) || c == lit("transport_error"),
    }
}

/// The error codes a connection can end with.
pub open spec fn connect_code(c: Seq<u8>) -> bool {
    ||| c == lit("unknown_server")
    ||| c == lit("client_error")
    ||| c == lit("discovery_error")
    ||| c == lit("legacy_adapter_required")
    ||| c == lit("catalog_error")
    ||| c == lit("pagination_limit")
    ||| c == lit("credential_error")
    ||| c == lit("transport_error")
}

/// A request handed to the transport for a server, and its outcome.
pub struct Exchanged {
    pub server_id: Seq<u8>,
    pub id: RidModel,
    pub method: Seq<u8>,
    pub params: JModel,
    pub outcome: Result<(RidModel, Option<JModel>, Option<(i32, Seq<u8>, Option<JModel>)>), (Seq<u8>, Seq<u8>, bool)>,
}

/// The record of exchanges after a request with id, method and parameters
/// `request` was to go to a server and ended with `o`: unchanged when the
/// credentials could not be resolved (nothing was sent), else one more.
pub open spec fn logged(
    before: Seq<Exchanged>,
    after: Seq<Exchanged>,
    server_id: Seq<u8>,
    request: (RidModel, Seq<u8>, JModel),
    o: Result<(RidModel, Option<JModel>, Option<(i32, Seq<u8>, Option<JModel>)>), (Seq<u8>, Seq<u8>, bool)>,
) -> bool {
    if o matches Err((c, _, _)) && c == lit("credential_error") {
        after == before
    } else {
        after == before.push(Exchanged { server_id, id: request.0, method: request.1, params: request.2, outcome: o })
    }
}

/// Where a catalog listing stands between two requests.
pub enum ListingAt {
    /// No page pending: the next request asks for the first page of a kind.
    Between,
    /// The last page of the listing with this method gave this cursor.
    More(Seq<u8>, Seq<u8>),
    /// The last request failed or its page could not be read.
    Failed,
}

/// The kind of catalog a listing method fills.
pub open spec fn list_kind_of(m: Seq<u8>) -> Option<ListKind> {
    if m == lit(crate::method::TOOLS_LIST) {
        Some(ListKind::Tools)
    } else if m == lit(crate::method::RESOURCES_LIST) {
        Some(ListKind::Resources)
    } else if m == lit(crate::method::PROMPTS_LIST) {
        Some(ListKind::Prompts)
    } else {
        None
    }
}

/// One listing exchange for server `sid`, whose requests carry `meta`: a
/// first page is asked without a cursor when no page is pending, else the
/// same listing is continued at the cursor the last page gave; the catalog
/// becomes what reading the reply makes of it. `None` when the request is
/// not the one owed.
pub open spec fn list_step(
    sid: Seq<u8>,
    meta: JModel,
    st: (Seq<(Seq<u8>, CatalogModel)>, ListingAt),
    e: Exchanged,
) -> Option<(Seq<(Seq<u8>, CatalogModel)>, ListingAt)> {
    let (cat, at) = st;
    let asked = match at {
        ListingAt::Between => e.params == with_meta(JModel::Object(seq![]), meta),
        ListingAt::More(m, cursor) => e.method == m && e.params == with_meta(
            crate::mcp_execution::obj1(lit("cursor"), JModel::Str(cursor)),
            meta,
        ),
        ListingAt::Failed => false,
    };
    match list_kind_of(e.method) {
        Some(kind) => if !asked {
            None
        } else {
            match e.outcome {
                Err(_) => Some((cat, ListingAt::Failed)),
                Ok((_, res, err)) => match ingest_spec(cat, sid, kind, result_of(res, err), 0, at is Between) {
                    Ok((m, next)) => Some((
                        sinsert(cat, m.server_id, msorted(m)),
                        match next {
                            Some(n) => ListingAt::More(e.method, n),
                            None => ListingAt::Between,
                        },
                    )),
                    Err(_) => Some((cat, ListingAt::Failed)),
                },
            }
        },
        None => None,
    }
}

/// The catalog and listing position after a run of listing exchanges
/// from catalog `cat`, or `None` when some request was not the one owed.
pub open spec fn listing(
    cat: Seq<(Seq<u8>, CatalogModel)>,
    sid: Seq<u8>,
    meta: JModel,
    es: Seq<Exchanged>,
) -> Option<(Seq<(Seq<u8>, CatalogModel)>, ListingAt)>
    decreases es.len(),
{
    if es.len() == 0 {
        Some((cat, ListingAt::Between))
    } else {
        match listing(cat, sid, meta, es.drop_last()) {
            Some(st) => list_step(sid, meta, st, es.last()),
            None => None,
        }
    }
}

/// The discovery request a client sends next: its next id, no parameters
/// but the client's metadata.
pub open spec fn discovery_request_of(c: ClientModel) -> (RidModel, Seq<u8>, JModel) {
    (
        RidModel::Text(id_text(c.server.id, sat_add(c.sequence, 1))),
        lit(crate::method::SERVER_DISCOVER),
        with_meta(JModel::Object(seq![]), client_meta(c.discovery)),
    )
}

/// What a connection of client `c` for server `sid` added to the record of
/// exchanges (`before` to `after`) and did to the catalog (`cat0` to
/// `cat1`): first the discovery request, then listing exchanges whose
/// requests carry `meta` and follow each page's cursor, the catalog being
/// what reading their replies made of it; when `done`, no page is pending.
pub open spec fn connection_record(
    before: Seq<Exchanged>,
    after: Seq<Exchanged>,
    c: ClientModel,
    cat0: Seq<(Seq<u8>, CatalogModel)>,
    cat1: Seq<(Seq<u8>, CatalogModel)>,
    sid: Seq<u8>,
    meta: JModel,
    done: bool,
) -> bool {
    let added = after.subrange(before.len() as int, after.len() as int);
    &&& before.len() <= after.len()
    &&& after.subrange(0, before.len() as int) == before
    &&& if added.len() == 0 {
        cat1 == cat0 && !done
    } else {
        &&& (added[0].id, added[0].method, added[0].params) == discovery_request_of(c)
        &&& listing(cat0, sid, meta, added.drop_first()) matches Some((cat, at))
        &&& cat == cat1
        &&& done ==> at is Between
    }
}

proof fn lemma_listing_push(cat: Seq<(Seq<u8>, CatalogModel)>, sid: Seq<u8>, meta: JModel, es: Seq<Exchanged>, e: Exchanged)
    ensures
        listing(cat, sid, meta, es.push(e)) == (match listing(cat, sid, meta, es) {
            Some(st) => list_step(sid, meta, st, e),
            None => None,
        }),
{
    assert(es.push(e).drop_last() =~= es);
}

proof fn lemma_record(
    before: Seq<Exchanged>,
    e0: Exchanged,
    es: Seq<Exchanged>,
    c: ClientModel,
    cat0: Seq<(Seq<u8>, CatalogModel)>,
    cat1: Seq<(Seq<u8>, CatalogModel)>,
    sid: Seq<u8>,
    meta: JModel,
    done: bool,
)
    requires
        (e0.id, e0.method, e0.params) == discovery_request_of(c),
        listing(cat0, sid, meta, es) matches Some((cat, at)) && cat == cat1 && (done ==> at is Between),
    ensures
        connection_record(before, before.push(e0) + es, c, cat0, cat1, sid, meta, done),
{
    let after = before.push(e0) + es;
    assert(after.subrange(0, before.len() as int) =~= before);
    let added = after.subrange(before.len() as int, after.len() as int);
    assert(added =~= seq![e0] + es);
    assert(added.drop_first() =~= es);
}

/// The codes of an unknown server and of a connection that waits for a
/// legacy adapter differ from every other code a connection can end with.
proof fn lemma_connect_codes_distinct()
    ensures
        lit("unknown_server") != lit("client_error"),
        lit("unknown_server") != lit("discovery_error"),
        lit("unknown_server") != lit("catalog_error"),
        lit("unknown_server") != lit("pagination_limit"),
        lit("unknown_server") != lit("credential_error"),
        lit("unknown_server") != lit("transport_error"),
        lit("legacy_adapter_required") != lit("unknown_server"),
        lit("legacy_adapter_required") != lit("client_error"),
        lit("legacy_adapter_required") != lit("discovery_error"),
        lit("legacy_adapter_required") != lit("catalog_error"),
        lit("legacy_adapter_required") != lit("pagination_limit"),
        lit("legacy_adapter_required") != lit("credential_error"),
        lit("legacy_adapter_required") != lit("transport_error"),
{
    reveal_strlit("legacy_adapter_required");
    reveal_strlit("unknown_server");
    reveal_strlit("client_error");
    reveal_strlit("discovery_error");
    reveal_strlit("catalog_error");
    reveal_strlit("pagination_limit");
    reveal_strlit("credential_error");
    reveal_strlit("transport_error");
    assert(lit("legacy_adapter_required").len() == 23);
    assert(lit("unknown_server").len() == 14);
    assert(lit("client_error").len() == 12);
    assert(lit("discovery_error").len() == 15);
    assert(lit("catalog_error").len() == 13);
    assert(lit("pagination_limit").len() == 16);
    assert(lit("credential_error").len() == 16);
    assert(lit("transport_error").len() == 15);
}

/// The most pages of one listing that a connection follows.
pub const MAX_CATALOG_PAGES: usize = 100;

/// What follows a page of a listing.
#[derive(Debug)]
pub enum PageStep {
    /// The listing is complete.
    Done,
    /// Ask for the page at this cursor.
    Next(Vec<u8>),
    /// A further page would pass the limit.
    LimitReached,
}

/// The step after `pages` pages of a listing have been read, the last one
/// giving `cursor`: done without a cursor, refused at the page limit, else
/// the next page at the cursor.
pub fn page_step(pages: usize, cursor: Option<&[u8]>) -> (r: PageStep)
    ensures
        match cursor {
            None => r is Done,
            Some(c) => if pages >= MAX_CATALOG_PAGES {
                r is LimitReached
            } else {
                r matches PageStep::Next(n) && n@ == c@
            },
        },
{
    match cursor {
        None => PageStep::Done,
        Some(c) => if pages >= MAX_CATALOG_PAGES {
            PageStep::LimitReached
        } else {
            PageStep::Next(to_vec(c))
        },
    }
}

/// Model of an exchange's outcome.
pub open spec fn outcome_model(o: Result<RpcResponse, (Vec<u8>, Vec<u8>, bool)>) -> Result<
    (RidModel, Option<JModel>, Option<(i32, Seq<u8>, Option<JModel>)>),
    (Seq<u8>, Seq<u8>, bool),
> {
    match o {
        Ok(q) => Ok(rmodel(q)),
        Err(e) => Err(etup(e)),
    }
}

/// Turns the outcome of an exchange with a server into the tool result
/// the model sees; `primitive` names what was asked of the server.
pub fn reply_from_exchange(
    call_id: &[u8],
    server: &ServerConfig,
    primitive: &[u8],
    outcome: Result<RpcResponse, (Vec<u8>, Vec<u8>, bool)>,
) -> (r: ToolResult)
    ensures
        r@ == exchange_reply(call_id@, server.max_response_bytes, outcome_model(outcome)),
{
    match outcome {
        Ok(response) => match response.result {
            Some(value) => {
                let guarded = GuardedResult::filter(
                    &value,
                    Provenance { server_id: to_vec(server.id.as_slice()), primitive: to_vec(primitive), trust: server.trust },
                    server.max_response_bytes,
                );
                ToolResult::success(call_id, guarded.value, 0)
            },
            None => remote_failure(call_id, response.error),
        },
        Err((code, message, retryable)) => ToolResult::failure(call_id, code.as_slice(), message.as_slice(), retryable),
    }
}

/// The failed tool result for a firewall decision other than `Allow`.
pub open spec fn verdict_reply(call_id: Seq<u8>, v: Verdict) -> ResultModel {
    match v {
        Verdict::ApprovalRequired(reason) => failure_model(call_id, lit("approval_required"), reason, false),
        Verdict::Deny(reason) => failure_model(call_id, lit("policy_denied"), reason, false),
        Verdict::RateLimited => failure_model(call_id, lit("rate_limited"), lit("MCP call budget exceeded"), true),
        Verdict::CircuitOpen => failure_model(call_id, lit("circuit_open"), lit("MCP server circuit breaker is open"), true),
        Verdict::Allow => success_model(call_id, JModel::Null, 0),
    }
}

fn refusal(call_id: &[u8], decision: PolicyDecision) -> (r: Option<ToolResult>)
    ensures
        match r {
            None => decision@ is Allow,
            Some(t) => !(decision@ is Allow) && t@ == verdict_reply(call_id@, decision@),
        },
{
    proof {
        reveal_strlit("approval_required");
        reveal_strlit("policy_denied");
        reveal_strlit("rate_limited");
        reveal_strlit("MCP call budget exceeded");
        reveal_strlit("circuit_open");
        reveal_strlit("MCP server circuit breaker is open");
    }
    match decision {
        PolicyDecision::Allow => None,
        PolicyDecision::ApprovalRequired { reason } => Some(
            ToolResult::failure(call_id, ascii_bytes("approval_required").as_slice(), reason.as_slice(), false),
        ),
        PolicyDecision::Deny { reason } => Some(
            ToolResult::failure(call_id, ascii_bytes("policy_denied").as_slice(), reason.as_slice(), false),
        ),
        PolicyDecision::RateLimited => Some(failure_of(call_id, "rate_limited", "MCP call budget exceeded", true)),
        PolicyDecision::CircuitOpen => Some(
            failure_of(call_id, "circuit_open", "MCP server circuit breaker is open", true),
        ),
    }
}

/// The configuration a runtime starts from: the servers of a readable and
/// valid file; none, with the reason (`line N: message`), when the file
/// is invalid; none when there is no file.
pub open spec fn load_outcome(file: Option<Seq<u8>>) -> (Seq<ServerModel>, Option<Seq<u8>>) {
    match file {
        None => (seq![], None),
        Some(b) => match spec_parse_config(b) {
            Ok(c) => (c.servers, None),
            Err((line, msg)) => (seq![], Some(lit("line ") + dec(line) + lit(": ") + vstd::utf8::encode_utf8(msg))),
        },
    }
}

/// The contents of a file that could be read.
pub open spec fn file_view(f: Option<&[u8]>) -> Option<Seq<u8>> {
    match f {
        Some(b) => Some(b@),
        None => None,
    }
}

/// One configured server as listed to the model.
pub open spec fn server_entry(e: (Seq<u8>, ClientModel)) -> JModel {
    JModel::Object(
        jinsert(
            jinsert(
                jinsert(jinsert(seq![], lit("id"), JModel::Str(e.0)), lit("endpoint"), JModel::Str(e.1.server.endpoint)),
                lit("status"),
                JModel::Str(status_text(e.1.status)),
            ),
            lit("authenticated"),
            JModel::Bool(!(e.1.server.auth is NoAuth)),
        ),
    )
}

/// The listing of the configured servers, with the configuration error if
/// there was one.
pub open spec fn servers_json(clients: Seq<(Seq<u8>, ClientModel)>, config_error: Option<Seq<u8>>) -> JModel {
    let m = jinsert(seq![], lit("servers"), JModel::Array(clients.map_values(|e: (Seq<u8>, ClientModel)| server_entry(e))));
    JModel::Object(
        match config_error {
            Some(c) => jinsert(m, lit("config_error"), JModel::Str(c)),
            None => m,
        },
    )
}

/// One catalog tool as listed to the model.
pub open spec fn tool_entry(e: (Seq<u8>, Seq<u8>, ToolModel)) -> JModel {
    JModel::Object(
        jinsert(
            jinsert(
                jinsert(jinsert(seq![], lit("name"), JModel::Str(e.1)), lit("server"), JModel::Str(e.0)),
                lit("schema"),
                e.2.input_schema,
            ),
            lit("description"),
            match e.2.description {
                Some(d) => JModel::Str(d),
                None => JModel::Null,
            },
        ),
    )
}

/// The catalog tools listed to the model, of one server when a filter is
/// given.
pub open spec fn tools_listing(entries: Seq<(Seq<u8>, Seq<u8>, ToolModel)>, filter: Option<Seq<u8>>) -> Seq<JModel>
    decreases entries.len(),
{
    if entries.len() == 0 {
        seq![]
    } else {
        let rest = tools_listing(entries.drop_last(), filter);
        if filter matches Some(s) && s != entries.last().0 {
            rest
        } else {
            rest.push(tool_entry(entries.last()))
        }
    }
}

/// The reply to a successful `connect`.
pub open spec fn connected_json(server: Seq<u8>, items: nat) -> JModel {
    JModel::Object(
        jinsert(
            jinsert(jinsert(seq![], lit("server"), JModel::Str(server)), lit("connected"), JModel::Bool(true)),
            lit("catalog_items"),
            JModel::Number(dec(items)),
        ),
    )
}

/// The number of items in a server's catalog.
pub open spec fn catalog_items(c: Option<CatalogModel>) -> nat {
    match c {
        Some(m) => m.tools.len() + m.resources.len() + m.prompts.len(),
        None => 0,
    }
}

/// The arguments of a tool call: the `arguments` member, else an empty
/// object.
pub open spec fn call_arguments(args: JModel) -> JModel {
    match jget(args, lit("arguments")) {
        Some(a) => a,
        None => JModel::Object(seq![]),
    }
}

/// What happens to a tool call before anything is sent: the reply and
/// firewall budgets when it is refused, or the server and tool it goes to.
pub open spec fn call_gate(
    clients: Seq<(Seq<u8>, ClientModel)>,
    catalog: Seq<(Seq<u8>, CatalogModel)>,
    budgets: Map<Seq<u8>, ServerBudget>,
    max_calls: usize,
    max_args: usize,
    args: JModel,
    call_id: Seq<u8>,
    now_ms: u64,
) -> Result<(ServerModel, ToolModel, Map<Seq<u8>, ServerBudget>), (ResultModel, Map<Seq<u8>, ServerBudget>)> {
    match (req_str(args, lit("server")), req_str(args, lit("name"))) {
        (Some(s), Some(t)) => match resolve_spec(catalog, spec_namespaced(s, t)) {
            None => Err((failure_model(call_id, lit("unknown_tool"), lit("connect the server and verify the namespaced tool first"), false), budgets)),
            Some((_, tool)) => match sget(clients, s) {
                None => Err((failure_model(call_id, lit("unknown_server"), lit("unknown MCP server"), false), budgets)),
                Some(c) => {
                    let (v, b) = check_spec(budgets, max_calls, max_args, c.server, tool, call_arguments(args), None, now_ms);
                    if v is Allow {
                        Ok((c.server, tool, b))
                    } else {
                        Err((verdict_reply(call_id, v), b))
                    }
                },
            },
        },
        _ => Err((invalid_args_reply(call_id), budgets)),
    }
}

/// The budgets after the outcome of a call to server `id` was recorded.
pub open spec fn recorded(
    b: Map<Seq<u8>, ServerBudget>,
    id: Seq<u8>,
    ok: bool,
    now_ms: u64,
    threshold: usize,
    cooldown_ms: u64,
) -> Map<Seq<u8>, ServerBudget> {
    b.insert(id, spec_record(if b.contains_key(id) { b[id] } else { fresh_budget() }, ok, now_ms, threshold, cooldown_ms))
}

/// A count held in a `usize`, saturating.
pub open spec fn capped(n: nat) -> nat {
    if n > usize::MAX {
        usize::MAX as nat
    } else {
        n
    }
}

/// What happens to a request for one server's primitive before anything
/// is sent: the reply when it is refused, or the server id, the second
/// argument and the server it goes to.
pub open spec fn server_gate(
    clients: Seq<(Seq<u8>, ClientModel)>,
    args: JModel,
    key: Seq<u8>,
    call_id: Seq<u8>,
) -> Result<(Seq<u8>, Seq<u8>, ServerModel), ResultModel> {
    match (req_str(args, lit("server")), req_str(args, key)) {
        (Some(s), Some(x)) => match sget(clients, s) {
            None => Err(failure_model(call_id, lit("unknown_server"), lit("unknown MCP server"), false)),
            Some(c) => Ok((s, x, c.server)),
        },
        _ => Err(invalid_args_reply(call_id)),
    }
}

/// The agent's MCP host: clients, transport, firewall and credentials.
pub struct McpRuntime<T, R> {
    session_id: Vec<u8>,
    manager: ClientManager,
    http: McpHttpClient<T>,
    firewall: PolicyFirewall,
    config_error: Option<Vec<u8>>,
    resolver: R,
    exchanges: Ghost<Seq<Exchanged>>,
}

impl<T: HttpTransport, R: CredentialResolver> McpRuntime<T, R> {
    pub closed spec fn wf(&self) -> bool {
        self.firewall.wf()
    }

    /// The requests handed to the transport so far, each with what came
    /// back.
    pub closed spec fn exchanges(&self) -> Seq<Exchanged> {
        self.exchanges@
    }

    /// The clients, in server id order.
    pub closed spec fn clients(&self) -> Seq<(Seq<u8>, ClientModel)> {
        self.manager.clients()
    }

    /// The merged catalog.
    pub closed spec fn catalog(&self) -> Seq<(Seq<u8>, CatalogModel)> {
        self.manager.catalog_view()
    }

    /// The firewall's budgets.
    pub closed spec fn budgets(&self) -> Map<Seq<u8>, ServerBudget> {
        self.firewall.budgets()
    }

    pub closed spec fn max_calls(&self) -> usize {
        self.firewall.max_calls()
    }

    pub closed spec fn max_args(&self) -> usize {
        self.firewall.max_args()
    }

    /// Failures in a row that open a server's circuit.
    pub closed spec fn threshold(&self) -> usize {
        self.firewall.threshold()
    }

    /// How long an open circuit stays open.
    pub closed spec fn cooldown(&self) -> u64 {
        self.firewall.cooldown()
    }

    /// Why the configuration could not be used, if it could not.
    pub closed spec fn config_error(&self) -> Option<Seq<u8>> {
        match self.config_error {
            Some(e) => Some(e@),
            None => None,
        }
    }

    pub closed spec fn session(&self) -> Seq<u8> {
        self.session_id@
    }

    /// Starts the runtime from the contents of the configuration file, if
    /// it could be read.
    pub fn load(session_id: &[u8], config_file: Option<&[u8]>, transport: T, resolver: R) -> (r: Self)
        requires
            config_file matches Some(b) ==> b@.len() < usize::MAX,
        ensures
            r.wf(),
            r.session() == session_id@,
            r.clients() == clients_from(load_outcome(file_view(config_file)).0),
            r.config_error() == load_outcome(file_view(config_file)).1,
            r.catalog() == Seq::<(Seq<u8>, CatalogModel)>::empty(),
            r.budgets() == Map::<Seq<u8>, ServerBudget>::empty(),
            r.max_calls() == 10,
            r.max_args() == 64 * 1024,
    {
        let (config, config_error) = match config_file {
            Some(bytes) => match McpConfig::parse(bytes) {
                Ok(config) => (config, None),
                Err(error) => {
                    proof {
                        reveal_strlit("line ");
                        reveal_strlit(": ");
                    }
                    let mut text = ascii_bytes("line ");
                    push_dec(&mut text, error.line as u64);
                    push_all(&mut text, ascii_bytes(": ").as_slice());
                    push_all(&mut text, error.message.as_str().as_bytes());
                    (McpConfig::empty(), Some(text))
                },
            },
            None => (McpConfig::empty(), None),
        };
        McpRuntime {
            session_id: to_vec(session_id),
            manager: ClientManager::from_config(&config),
            http: McpHttpClient::new(transport),
            firewall: PolicyFirewall::new(),
            config_error,
            resolver,
            exchanges: Ghost(Seq::empty()),
        }
    }

    pub fn server_count(&self) -> (r: usize)
        ensures
            r == self.clients().len(),
    {
        self.manager.len()
    }

    /// Starts a new turn of the conversation: call budgets are restored.
    pub fn reset_turn(&mut self)
        requires
            old(self).wf(),
        ensures
            final(self).wf(),
            final(self).clients() == old(self).clients(),
            final(self).catalog() == old(self).catalog(),
            final(self).max_calls() == old(self).max_calls(),
            final(self).max_args() == old(self).max_args(),
            final(self).budgets() == Map::new(
                |k: Seq<u8>| old(self).budgets().contains_key(k),
                |k: Seq<u8>| ServerBudget { calls_this_turn: 0, ..old(self).budgets()[k] },
            ),
    {
        self.firewall.reset_turn();
    }

    /// Lists the configured servers.
    pub fn servers(&self, call_id: &[u8]) -> (r: ToolResult)
        ensures
            r@ == success_model(call_id@, servers_json(self.clients(), self.config_error()), 0),
    {
        proof {
            reveal_strlit("id");
            reveal_strlit("endpoint");
            reveal_strlit("status");
            reveal_strlit("authenticated");
            reveal_strlit("servers");
            reveal_strlit("config_error");
        }
        let entries = self.manager.iter();
        let ghost cs = self.clients();
        let mut list: Vec<JsonValue> = Vec::new();
        let mut i: usize = 0;
        while i < entries.len()
            invariant
                0 <= i <= entries@.len(),
                cs == self.clients(),
                entries@.len() == cs.len(),
                forall|k: int| 0 <= k < entries@.len() ==> ((#[trigger] entries@[k]).0@, entries@[k].1@) == cs[k],
                crate::json::jviews(list@) == cs.subrange(0, i as int).map_values(|e: (Seq<u8>, ClientModel)| server_entry(e)),
            decreases entries.len() - i,
        {
            proof {
                reveal_strlit("id");
                reveal_strlit("endpoint");
                reveal_strlit("status");
                reveal_strlit("authenticated");
            }
            let (id, client) = entries[i];
            let mut m: Vec<(Vec<u8>, JsonValue)> = Vec::new();
            assert(jentries(m@) =~= seq![]);
            object_insert(&mut m, ascii_bytes("id"), JsonValue::Str(to_vec(id)));
            object_insert(&mut m, ascii_bytes("endpoint"), JsonValue::Str(to_vec(client.server.endpoint.as_slice())));
            let status = status_name(client.status);
            object_insert(&mut m, ascii_bytes("status"), JsonValue::Str(ascii_bytes(status)));
            object_insert(&mut m, ascii_bytes("authenticated"), JsonValue::Bool(client.server.is_authenticated()));
            let ghost lold = list@;
            let entry = JsonValue::Object(m);
            assert(entry@ == server_entry(cs[i as int]));
            list.push(entry);
            proof {
                assert(list@.drop_last() =~= lold);
                assert(cs.subrange(0, i + 1).map_values(|e: (Seq<u8>, ClientModel)| server_entry(e)) =~= cs.subrange(
                    0,
                    i as int,
                ).map_values(|e: (Seq<u8>, ClientModel)| server_entry(e)).push(server_entry(cs[i as int])));
            }
            i = i + 1;
        }
        assert(cs.subrange(0, i as int) =~= cs);
        let mut values: Vec<(Vec<u8>, JsonValue)> = Vec::new();
        assert(jentries(values@) =~= seq![]);
        object_insert(&mut values, ascii_bytes("servers"), JsonValue::Array(list));
        match &self.config_error {
            Some(e) => object_insert(&mut values, ascii_bytes("config_error"), JsonValue::Str(to_vec(e.as_slice()))),
            None => {},
        }
        ToolResult::success(call_id, JsonValue::Object(values), 0)
    }

    /// Lists the catalog's tools, of one server when `server` is given.
    pub fn tools(&self, args: &JsonValue, call_id: &[u8]) -> (r: ToolResult)
        ensures
            r@ == success_model(
                call_id@,
                JModel::Array(tools_listing(all_tools(self.catalog()), str_at(args@, lit("server")))),
                0,
            ),
    {
        proof {
            reveal_strlit("server");
        }
        let filter: Option<&[u8]> = match args.get(ascii_bytes("server").as_slice()) {
            Some(v) => v.as_str(),
            None => None,
        };
        assert(filter matches Some(f) ==> str_at(args@, lit("server")) == Some(f@));
        assert(filter is None ==> str_at(args@, lit("server")) is None);
        let ghost fv: Option<Seq<u8>> = str_at(args@, lit("server"));
        let entries = self.manager.catalog().tools();
        let ghost es = ct_views(entries@);
        let mut list: Vec<JsonValue> = Vec::new();
        let mut i: usize = 0;
        while i < entries.len()
            invariant
                0 <= i <= entries@.len(),
                es == ct_views(entries@),
                fv == str_at(args@, lit("server")),
                filter matches Some(f) ==> fv == Some(f@),
                filter is None ==> fv is None,
                crate::json::jviews(list@) == tools_listing(es.subrange(0, i as int), fv),
            decreases entries.len() - i,
        {
            proof {
                reveal_strlit("name");
                reveal_strlit("server");
                reveal_strlit("schema");
                reveal_strlit("description");
            }
            let e = &entries[i];
            assert(es[i as int] == ct_view(*e));
            assert(es.subrange(0, i + 1).drop_last() =~= es.subrange(0, i as int));
            let keep = match filter {
                Some(f) => crate::text::bytes_eq(f, e.server_id.as_slice()),
                None => true,
            };
            if keep {
                let mut m: Vec<(Vec<u8>, JsonValue)> = Vec::new();
                assert(jentries(m@) =~= seq![]);
                object_insert(&mut m, ascii_bytes("name"), JsonValue::Str(to_vec(e.exposed_name.as_slice())));
                object_insert(&mut m, ascii_bytes("server"), JsonValue::Str(to_vec(e.server_id.as_slice())));
                object_insert(&mut m, ascii_bytes("schema"), e.tool.input_schema.duplicate());
                let d = match &e.tool.description {
                    Some(d) => JsonValue::Str(to_vec(d.as_slice())),
                    None => JsonValue::Null,
                };
                object_insert(&mut m, ascii_bytes("description"), d);
                let ghost lold = list@;
                let entry = JsonValue::Object(m);
                assert(entry@ == tool_entry(es[i as int]));
                list.push(entry);
                assert(list@.drop_last() =~= lold);
            }
            i = i + 1;
        }
        assert(es.subrange(0, i as int) =~= es);
        ToolResult::success(call_id, JsonValue::Array(list), 0)
    }

    /// Sends one request to a server with its credentials.
    fn exchange(&mut self, server: &ServerConfig, request: &RpcRequest) -> (r: Result<RpcResponse, (Vec<u8>, Vec<u8>, bool)>)
        requires
            old(self).wf(),
        ensures
            final(self).wf(),
            final(self).manager == old(self).manager,
            final(self).firewall == old(self).firewall,
            final(self).config_error == old(self).config_error,
            final(self).session_id == old(self).session_id,
            r matches Err(e) ==> (e.0@ == lit("credential_error") && !e.2) || e.0@ == lit("transport_error"),
            r matches Ok(q) ==> exists|st: u16, hs: Seq<Header>, body: Seq<u8>|
                #[trigger] decode_spec(st, hs, body, server.max_response_bytes) == Ok::<_, (TransportErrorKind, Seq<u8>, bool, Option<u16>)>(rmodel(q)),
            logged(
                old(self).exchanges(),
                final(self).exchanges(),
                server.id@,
                (request.id@, request.method@, request.params@),
                outcome_model(r),
            ),
    {
        proof {
            reveal_strlit("credential_error");
            reveal_strlit("transport_error");
            assert(lit("credential_error").len() != lit("transport_error").len());
        }
        let auth = match resolve_auth(&server.auth, &mut self.resolver) {
            Ok(a) => a,
            Err(e) => return Err((ascii_bytes("credential_error"), to_vec(e.message.as_str().as_bytes()), false)),
        };
        let r = match self.http.exchange(server, request, auth.headers()) {
            Ok(q) => Ok(q),
            Err(e) => Err((ascii_bytes("transport_error"), e.message, e.retryable)),
        };
        self.exchanges = Ghost(
            self.exchanges@.push(
                Exchanged {
                    server_id: server.id@,
                    id: request.id@,
                    method: request.method@,
                    params: request.params@,
                    outcome: outcome_model(r),
                },
            ),
        );
        r
    }

    /// Sends a request and turns the reply into the tool result.
    fn exchange_result(&mut self, server: &ServerConfig, request: &RpcRequest, call_id: &[u8]) -> (r: ToolResult)
        requires
            old(self).wf(),
        ensures
            final(self).wf(),
            final(self).manager == old(self).manager,
            final(self).firewall == old(self).firewall,
            final(self).config_error == old(self).config_error,
            final(self).session_id == old(self).session_id,
            r.ok ==> exists|v: JModel| r@ == success_model(call_id@, #[trigger] guard(v, server.max_response_bytes), 0),
            exists|o| possible_outcome(o, server.max_response_bytes) && r@ == #[trigger] exchange_reply(
                call_id@,
                server.max_response_bytes,
                o,
            ),
    {
        let outcome = self.exchange(server, request);
        let ghost om = outcome_model(outcome);
        let r = reply_from_exchange(call_id, server, request.method.as_slice(), outcome);
        proof {
            if r.ok {
                let v = om->Ok_0.1->Some_0;
                assert(r@ == success_model(call_id@, guard(v, server.max_response_bytes), 0));
            }
            assert(possible_outcome(om, server.max_response_bytes));
            assert(r@ == exchange_reply(call_id@, server.max_response_bytes, om));
        }
        r
    }

    /// Discovers a server and fetches its whole catalog (at most 100 pages
    /// per listing); gives the number of catalog items. A disabled server is
    /// refused before anything is sent; a connection that succeeds leaves
    /// the server's client ready (not waiting for a legacy adapter). The
    /// requests sent are the discovery request, then for each kind the
    /// server offers a first page and a page at each cursor returned, until
    /// a page returns none; the catalog is what reading those pages made.
    fn connect_server(&mut self, server_id: &[u8]) -> (r: Result<usize, (Vec<u8>, Vec<u8>, bool)>)
        requires
            old(self).wf(),
        ensures
            final(self).wf(),
            final(self).firewall == old(self).firewall,
            final(self).config_error == old(self).config_error,
            final(self).session_id == old(self).session_id,
            sget(old(self).clients(), server_id@) is None ==> (r matches Err(e) && etup(e) == (lit("unknown_server"), lit("unknown MCP server"), false)
                && final(self).manager == old(self).manager && final(self).exchanges() == old(self).exchanges()),
            sget(old(self).clients(), server_id@) matches Some(c) && c.status == ClientStatus::Disabled ==> (r matches Err(e)
                && etup(e) == (lit("client_error"), lit("MCP server is disabled"), false)
                && final(self).clients() == old(self).clients() && final(self).catalog() == old(self).catalog()
                && final(self).exchanges() == old(self).exchanges()),
            sget(old(self).clients(), server_id@) is Some && sget(old(self).clients(), server_id@)->Some_0.status != ClientStatus::Disabled
                ==> connection_record(
                old(self).exchanges(),
                final(self).exchanges(),
                sget(old(self).clients(), server_id@)->Some_0,
                old(self).catalog(),
                final(self).catalog(),
                server_id@,
                client_meta(sget(final(self).clients(), server_id@)->Some_0.discovery),
                r is Ok,
            ),
            r matches Err(e) ==> connect_code(e.0@),
            r matches Err(e) && e.0@ == lit("unknown_server") ==> sget(old(self).clients(), server_id@) is None,
            r matches Err(e) && e.0@ == lit("legacy_adapter_required") ==> (sget(final(self).clients(), server_id@) matches Some(
                c,
            ) && c.status == ClientStatus::LegacyAdapterRequired),
            r matches Ok(n) ==> n as nat == capped(catalog_items(sget(final(self).catalog(), server_id@)))
                && (sget(final(self).clients(), server_id@) matches Some(c) && c.status == ClientStatus::Ready),
    {
        proof {
            reveal_strlit("unknown_server");
            reveal_strlit("unknown MCP server");
            reveal_strlit("client_error");
            reveal_strlit("discovery_error");
            lemma_connect_codes_distinct();
            crate::sorted_map::lemma_sfind(old(self).clients(), server_id@);
        }
        let server = match self.manager.client(server_id) {
            Some(c) => c.server.duplicate(),
            None => return Err((ascii_bytes("unknown_server"), ascii_bytes("unknown MCP server"), false)),
        };
        let ghost c0 = self.clients();
        let ghost cl = sget(c0, server_id@)->Some_0;
        let ghost ex0 = self.exchanges();
        let ghost cat0 = self.catalog();
        let discover = match self.manager.client_mut(server_id) {
            Ok(c) => match c.discover_request() {
                Ok(q) => q,
                Err(e) => {
                    proof {
                        let i = crate::sorted_map::sfind(c0, server_id@)->0;
                        assert(self.clients() =~= c0);
                    }
                    return Err((ascii_bytes("client_error"), e.message, false));
                },
            },
            Err(e) => return Err((ascii_bytes("client_error"), e.message, false)),
        };
        assert(!(sget(old(self).clients(), server_id@) matches Some(c) && c.status == ClientStatus::Disabled));
        assert((discover.id@, discover.method@, discover.params@) == discovery_request_of(cl));
        let discovered = self.exchange(&server, &discover);
        let ghost e0 = Exchanged {
            server_id: server.id@,
            id: discover.id@,
            method: discover.method@,
            params: discover.params@,
            outcome: outcome_model(discovered),
        };
        let ghost mut lst: Seq<Exchanged> = Seq::empty();
        let ghost mut at: ListingAt = ListingAt::Between;
        let response = match discovered {
            Ok(q) => q,
            Err(e) => {
                proof {
                    if !(outcome_model(discovered) matches Err((c, _, _)) && c == lit("credential_error")) {
                        lemma_record(ex0, e0, lst, cl, cat0, self.catalog(), server_id@, client_meta(sget(self.clients(), server_id@)->Some_0.discovery), false);
                    } else {
                        assert(self.exchanges().subrange(0, ex0.len() as int) =~= ex0);
                    }
                }
                return Err(e);
            },
        };
        assert(self.exchanges() == ex0.push(e0) + lst);
        match self.manager.client_mut(server_id) {
            Ok(c) => match c.accept_discovery(&response) {
                Ok(_) => {},
                Err(e) => {
                    proof {
                        lemma_record(ex0, e0, lst, cl, cat0, self.catalog(), server_id@, client_meta(sget(self.clients(), server_id@)->Some_0.discovery), false);
                    }
                    return Err((ascii_bytes("discovery_error"), e.message, false));
                },
            },
            Err(e) => {
                proof {
                    lemma_record(ex0, e0, lst, cl, cat0, self.catalog(), server_id@, client_meta(sget(self.clients(), server_id@)->Some_0.discovery), false);
                }
                return Err((ascii_bytes("client_error"), e.message, false));
            },
        }
        let legacy = match self.manager.client(server_id) {
            Some(c) => c.status == ClientStatus::LegacyAdapterRequired,
            None => false,
        };
        let ghost d = sget(self.clients(), server_id@)->Some_0.discovery;
        let ghost meta = client_meta(d);
        if legacy {
            proof {
                reveal_strlit("legacy_adapter_required");
                reveal_strlit("server requires a legacy MCP bridge adapter");
                lemma_record(ex0, e0, lst, cl, cat0, self.catalog(), server_id@, meta, false);
            }
            return Err((
                ascii_bytes("legacy_adapter_required"),
                ascii_bytes("server requires a legacy MCP bridge adapter"),
                false,
            ));
        }
        let ghost c1 = self.clients();
        proof {
            crate::sorted_map::lemma_sfind(c1, server_id@);
        }
        let requests = match self.manager.client_mut(server_id) {
            Ok(c) => match c.list_requests() {
                Ok(qs) => qs,
                Err(e) => {
                    proof {
                        assert(self.clients() =~= c1);
                        lemma_record(ex0, e0, lst, cl, cat0, self.catalog(), server_id@, meta, false);
                    }
                    return Err((ascii_bytes("client_error"), e.message, false));
                },
            },
            Err(e) => {
                proof {
                    lemma_record(ex0, e0, lst, cl, cat0, self.catalog(), server_id@, meta, false);
                }
                return Err((ascii_bytes("client_error"), e.message, false));
            },
        };
        proof {
            let i = crate::sorted_map::sfind(c1, server_id@)->0;
            crate::sorted_map::lemma_sget_update(c1, server_id@, i, self.clients()[i].1);
            assert(self.clients()[i].1.discovery == c1[i].1.discovery);
            assert(sget(self.clients(), server_id@)->Some_0.discovery == d);
        }
        assert forall|k: int| 0 <= k < requests@.len() implies (#[trigger] requests@[k]).params@ == with_meta(JModel::Object(seq![]), meta) by {}
        let mut idx: usize = 0;
        while idx < requests.len()
            invariant
                0 <= idx <= requests@.len(),
                self.wf(),
                sget(old(self).clients(), server_id@) is Some,
                !(sget(old(self).clients(), server_id@) matches Some(c) && c.status == ClientStatus::Disabled),
                sget(self.clients(), server_id@) matches Some(c) && c.status == ClientStatus::Ready && c.discovery == d,
                meta == client_meta(d),
                self.firewall == old(self).firewall,
                self.config_error == old(self).config_error,
                self.session_id == old(self).session_id,
                forall|k: int| 0 <= k < requests@.len() ==> (#[trigger] requests@[k]).params@ == with_meta(JModel::Object(seq![]), meta),
                (e0.id, e0.method, e0.params) == discovery_request_of(cl),
                self.exchanges() == ex0.push(e0) + lst,
                listing(cat0, server_id@, meta, lst) == Some((self.catalog(), ListingAt::Between)),
                cl == sget(old(self).clients(), server_id@)->Some_0,
                ex0 == old(self).exchanges(),
                cat0 == old(self).catalog(),
            decreases requests.len() - idx,
        {
            proof {
                reveal_strlit("tools/list");
                reveal_strlit("resources/list");
                reveal_strlit("prompts/list");
                reveal_strlit("catalog_error");
                reveal_strlit("invalid MCP list response");
                lemma_connect_codes_distinct();
            }
            let request = &requests[idx];
            let m = request.method.as_slice();
            let kind: Option<ListKind> = if crate::text::bytes_eq(m, ascii_bytes(crate::method::TOOLS_LIST).as_slice()) {
                Some(ListKind::Tools)
            } else if crate::text::bytes_eq(m, ascii_bytes(crate::method::RESOURCES_LIST).as_slice()) {
                Some(ListKind::Resources)
            } else if crate::text::bytes_eq(m, ascii_bytes(crate::method::PROMPTS_LIST).as_slice()) {
                Some(ListKind::Prompts)
            } else {
                None
            };
            assert(kind == list_kind_of(request.method@));
            match kind {
                Some(kind) => {
                    let first = self.exchange(&server, request);
                    let ghost e1 = Exchanged {
                        server_id: server.id@,
                        id: request.id@,
                        method: request.method@,
                        params: request.params@,
                        outcome: outcome_model(first),
                    };
                    proof {
                        if !(outcome_model(first) matches Err((c, _, _)) && c == lit("credential_error")) {
                            lemma_listing_push(cat0, server_id@, meta, lst, e1);
                            lst = lst.push(e1);
                            assert(self.exchanges() =~= ex0.push(e0) + lst);
                        }
                    }
                    let response = match first {
                        Ok(q) => q,
                        Err(e) => {
                            proof {
                                lemma_record(ex0, e0, lst, cl, cat0, self.catalog(), server_id@, meta, false);
                            }
                            return Err(e);
                        },
                    };
                    let mut cursor = match self.manager.ingest_list_page(server_id, kind, &response, 0, true) {
                        Ok(c) => c,
                        Err(_) => {
                            proof {
                                lemma_record(ex0, e0, lst, cl, cat0, self.catalog(), server_id@, meta, false);
                            }
                            return Err((ascii_bytes("catalog_error"), ascii_bytes("invalid MCP list response"), false));
                        },
                    };
                    proof {
                        at = match sopt(cursor) {
                            Some(n) => ListingAt::More(request.method@, n),
                            None => ListingAt::Between,
                        };
                    }
                    assert(listing(cat0, server_id@, meta, lst) == Some((self.catalog(), at)));
                    let mut pages: usize = 1;
                    loop
                        invariant
                            1 <= pages <= MAX_CATALOG_PAGES,
                            self.wf(),
                            sget(old(self).clients(), server_id@) is Some,
                            !(sget(old(self).clients(), server_id@) matches Some(c) && c.status == ClientStatus::Disabled),
                            sget(self.clients(), server_id@) matches Some(c) && c.status == ClientStatus::Ready && c.discovery == d,
                            meta == client_meta(d),
                            self.firewall == old(self).firewall,
                            self.config_error == old(self).config_error,
                            self.session_id == old(self).session_id,
                            (e0.id, e0.method, e0.params) == discovery_request_of(cl),
                            self.exchanges() == ex0.push(e0) + lst,
                            listing(cat0, server_id@, meta, lst) == Some((self.catalog(), at)),
                            at == (match sopt(cursor) {
                                Some(n) => ListingAt::More(request.method@, n),
                                None => ListingAt::Between,
                            }),
                            list_kind_of(request.method@) == Some(kind),
                            cl == sget(old(self).clients(), server_id@)->Some_0,
                            ex0 == old(self).exchanges(),
                            cat0 == old(self).catalog(),
                        ensures
                            self.wf(),
                            sget(self.clients(), server_id@) matches Some(c) && c.status == ClientStatus::Ready && c.discovery == d,
                            self.firewall == old(self).firewall,
                            self.config_error == old(self).config_error,
                            self.session_id == old(self).session_id,
                            self.exchanges() == ex0.push(e0) + lst,
                            listing(cat0, server_id@, meta, lst) == Some((self.catalog(), ListingAt::Between)),
                        decreases MAX_CATALOG_PAGES - pages,
                    {
                        proof {
                            reveal_strlit("catalog_error");
                            reveal_strlit("pagination_limit");
                            reveal_strlit("MCP catalog exceeded 100 pages");
                            reveal_strlit("could not build MCP page request");
                            reveal_strlit("invalid MCP list page");
                            lemma_connect_codes_distinct();
                        }
                        let cur: Option<&[u8]> = match &cursor {
                            Some(n) => Some(n.as_slice()),
                            None => None,
                        };
                        let next = match page_step(pages, cur) {
                            PageStep::Done => break,
                            PageStep::LimitReached => {
                                proof {
                                    lemma_record(ex0, e0, lst, cl, cat0, self.catalog(), server_id@, meta, false);
                                }
                                return Err(
                                    (ascii_bytes("pagination_limit"), ascii_bytes("MCP catalog exceeded 100 pages"), false),
                                );
                            },
                            PageStep::Next(n) => n,
                        };
                        let ghost c2 = self.clients();
                        let page_request = match self.manager.next_page_request(server_id, kind, next.as_slice()) {
                            Ok(q) => q,
                            Err(_) => {
                                proof {
                                    lemma_record(ex0, e0, lst, cl, cat0, self.catalog(), server_id@, meta, false);
                                }
                                return Err((ascii_bytes("catalog_error"), ascii_bytes("could not build MCP page request"), false));
                            },
                        };
                        proof {
                            crate::sorted_map::lemma_sfind(c2, server_id@);
                            let i = crate::sorted_map::sfind(c2, server_id@)->0;
                            crate::sorted_map::lemma_sget_update(c2, server_id@, i, crate::mcp_execution::bumped(c2[i].1));
                        }
                        let paged = self.exchange(&server, &page_request);
                        let ghost e2 = Exchanged {
                            server_id: server.id@,
                            id: page_request.id@,
                            method: page_request.method@,
                            params: page_request.params@,
                            outcome: outcome_model(paged),
                        };
                        proof {
                            if !(outcome_model(paged) matches Err((c, _, _)) && c == lit("credential_error")) {
                                lemma_listing_push(cat0, server_id@, meta, lst, e2);
                                lst = lst.push(e2);
                                assert(self.exchanges() =~= ex0.push(e0) + lst);
                            }
                        }
                        let page = match paged {
                            Ok(q) => q,
                            Err(e) => {
                                proof {
                                    lemma_record(ex0, e0, lst, cl, cat0, self.catalog(), server_id@, meta, false);
                                }
                                return Err(e);
                            },
                        };
                        cursor = match self.manager.ingest_list_page(server_id, kind, &page, 0, false) {
                            Ok(c) => c,
                            Err(_) => {
                                proof {
                                    lemma_record(ex0, e0, lst, cl, cat0, self.catalog(), server_id@, meta, false);
                                }
                                return Err((ascii_bytes("catalog_error"), ascii_bytes("invalid MCP list page"), false));
                            },
                        };
                        proof {
                            at = match sopt(cursor) {
                                Some(n) => ListingAt::More(request.method@, n),
                                None => ListingAt::Between,
                            };
                        }
                        pages = pages + 1;
                    }
                },
                None => {},
            }
            idx = idx + 1;
        }
        let n = match self.manager.catalog().server(server_id) {
            Some(c) => c.tools.len().saturating_add(c.resources.len()).saturating_add(c.prompts.len()),
            None => 0,
        };
        proof {
            lemma_record(ex0, e0, lst, cl, cat0, self.catalog(), server_id@, meta, true);
        }
        Ok(n)
    }

    /// Connects a server named by the `server` argument.
    pub fn connect(&mut self, args: &JsonValue, call_id: &[u8]) -> (r: ToolResult)
        requires
            old(self).wf(),
        ensures
            final(self).wf(),
            final(self).budgets() == old(self).budgets(),
            final(self).max_calls() == old(self).max_calls(),
            final(self).max_args() == old(self).max_args(),
            final(self).config_error() == old(self).config_error(),
            final(self).session() == old(self).session(),
            match req_str(args@, lit("server")) {
                None => r@ == invalid_args_reply(call_id@) && final(self).clients() == old(self).clients()
                    && final(self).catalog() == old(self).catalog(),
                Some(s) => (sget(old(self).clients(), s) is None ==> r@ == failure_model(
                    call_id@,
                    lit("unknown_server"),
                    lit("unknown MCP server"),
                    false,
                ) && final(self).clients() == old(self).clients() && final(self).catalog() == old(self).catalog())
                    && (sget(old(self).clients(), s) matches Some(c) && c.status == ClientStatus::Disabled ==> r@ == failure_model(
                    call_id@,
                    lit("client_error"),
                    lit("MCP server is disabled"),
                    false,
                ) && final(self).clients() == old(self).clients() && final(self).catalog() == old(self).catalog())
                    && (r.ok ==> r@ == success_model(call_id@, connected_json(s, capped(catalog_items(sget(final(self).catalog(), s)))), 0)
                    && (sget(final(self).clients(), s) matches Some(c) && c.status == ClientStatus::Ready))
                    && (sget(old(self).clients(), s) is Some && sget(old(self).clients(), s)->Some_0.status != ClientStatus::Disabled
                    ==> connection_record(
                    old(self).exchanges(),
                    final(self).exchanges(),
                    sget(old(self).clients(), s)->Some_0,
                    old(self).catalog(),
                    final(self).catalog(),
                    s,
                    client_meta(sget(final(self).clients(), s)->Some_0.discovery),
                    r.ok,
                )),
            },
    {
        proof { reveal_strlit("server"); }
        let server_id = match required_string(args, ascii_bytes("server").as_slice()) {
            Some(v) => v,
            None => return invalid_args(call_id),
        };
        match self.connect_server(server_id) {
            Ok(discovered) => {
                proof {
                    reveal_strlit("connected");
                    reveal_strlit("catalog_items");
                }
                let mut m: Vec<(Vec<u8>, JsonValue)> = Vec::new();
                assert(jentries(m@) =~= seq![]);
                object_insert(&mut m, ascii_bytes("server"), JsonValue::Str(to_vec(server_id)));
                object_insert(&mut m, ascii_bytes("connected"), JsonValue::Bool(true));
                object_insert(&mut m, ascii_bytes("catalog_items"), json_u64(discovered as u64));
                ToolResult::success(call_id, JsonValue::Object(m), 0)
            },
            Err((code, message, retryable)) => ToolResult::failure(call_id, code.as_slice(), message.as_slice(), retryable),
        }
    }


    /// Calls a namespaced tool of a connected server: the arguments must
    /// name the server and tool, the tool must be in the catalog, and the
    /// firewall must allow the call; the request takes the server's next
    /// request id, and the outcome is recorded against the server's
    /// circuit breaker.
    pub fn call(&mut self, args: &JsonValue, call_id: &[u8], now_ms: u64) -> (r: ToolResult)
        requires
            old(self).wf(),
        ensures
            final(self).wf(),
            final(self).max_calls() == old(self).max_calls(),
            final(self).max_args() == old(self).max_args(),
            final(self).config_error() == old(self).config_error(),
            final(self).session() == old(self).session(),
            match call_gate(
                old(self).clients(),
                old(self).catalog(),
                old(self).budgets(),
                old(self).max_calls(),
                old(self).max_args(),
                args@,
                call_id@,
                now_ms,
            ) {
                Err((reply, b)) => r@ == reply && final(self).budgets() == b && final(self).clients() == old(self).clients()
                    && final(self).catalog() == old(self).catalog() && final(self).exchanges() == old(self).exchanges(),
                Ok((server, _, b)) => {
                    let s = req_str(args@, lit("server"))->Some_0;
                    let t = req_str(args@, lit("name"))->Some_0;
                    &&& r.ok ==> exists|v: JModel| r@ == success_model(call_id@, #[trigger] guard(v, server.max_response_bytes), 0)
                    &&& final(self).catalog() == old(self).catalog()
                    &&& match plan_spec(old(self).clients(), old(self).catalog(), spec_namespaced(s, t), call_arguments(args@)) {
                        Err(e) => r@ == failure_model(call_id@, host_code(e), host_message(e), false) && final(self).budgets() == b
                            && final(self).clients() == old(self).clients() && final(self).exchanges() == old(self).exchanges(),
                        Ok((_, tool, i)) => {
                            let c = old(self).clients()[i].1;
                            &&& final(self).clients() == old(self).clients().update(
                                i,
                                (old(self).clients()[i].0, crate::mcp_execution::bumped(c)),
                            )
                            &&& exists|o| {
                                &&& possible_outcome(o, server.max_response_bytes)
                                &&& r@ == #[trigger] exchange_reply(call_id@, server.max_response_bytes, o)
                                &&& final(self).budgets() == recorded(b, s, o is Ok, now_ms, old(self).threshold(), old(self).cooldown())
                                &&& logged(
                                    old(self).exchanges(),
                                    final(self).exchanges(),
                                    server.id,
                                    (
                                        RidModel::Text(id_text(c.server.id, sat_add(c.sequence, 1))),
                                        lit(crate::method::TOOLS_CALL),
                                        with_meta(
                                            obj2(lit("name"), JModel::Str(tool.name), lit("arguments"), call_arguments(args@)),
                                            client_meta(c.discovery),
                                        ),
                                    ),
                                    o,
                                )
                            }
                        },
                    }
                },
            },
    {
        proof {
            reveal_strlit("server");
            reveal_strlit("name");
            reveal_strlit("arguments");
            reveal_strlit("unknown_tool");
            reveal_strlit("connect the server and verify the namespaced tool first");
            reveal_strlit("unknown_server");
            reveal_strlit("unknown MCP server");
        }
        let server_id = match required_string(args, ascii_bytes("server").as_slice()) {
            Some(v) => v,
            None => return invalid_args(call_id),
        };
        let tool_name = match required_string(args, ascii_bytes("name").as_slice()) {
            Some(v) => v,
            None => return invalid_args(call_id),
        };
        let arguments = match args.get(ascii_bytes("arguments").as_slice()) {
            Some(a) => a.duplicate(),
            None => empty_object(),
        };
        assert(arguments@ == call_arguments(args@));
        let exposed_name = crate::mcp_primitives::namespaced(server_id, tool_name);
        let (server, tool) = match self.manager.catalog().resolve_tool(exposed_name.as_slice()) {
            Some((_, tool)) => {
                let server = match self.manager.client(server_id) {
                    Some(client) => client.server.duplicate(),
                    None => return failure_of(call_id, "unknown_server", "unknown MCP server", false),
                };
                (server, tool.duplicate())
            },
            None => return failure_of(
                call_id,
                "unknown_tool",
                "connect the server and verify the namespaced tool first",
                false,
            ),
        };
        let ghost gate = call_gate(
            old(self).clients(),
            old(self).catalog(),
            old(self).budgets(),
            old(self).max_calls(),
            old(self).max_args(),
            args@,
            call_id@,
            now_ms,
        );
        let decision = self.firewall.check_tool(&server, &tool, &arguments, None, now_ms);
        match refusal(call_id, decision) {
            Some(t) => return t,
            None => {},
        }
        let request = match self.manager.plan_tool_call(exposed_name.as_slice(), arguments) {
            Ok((_, q)) => q,
            Err(e) => return host_error(call_id, e),
        };
        let result = self.exchange(&server, &request);
        let ghost b1 = self.budgets();
        self.firewall.record_result(server_id, result.is_ok(), now_ms);
        let ghost om = outcome_model(result);
        let r = reply_from_exchange(call_id, &server, tool_name, result);
        proof {
            assert(gate matches Ok((sv, _, _)) && sv == server@);
            if r.ok {
                let v = om->Ok_0.1->Some_0;
                assert(r@ == success_model(call_id@, guard(v, server.max_response_bytes), 0));
                assert(r@ == success_model(call_id@, guard(v, gate->Ok_0.0.max_response_bytes), 0));
            }
            assert(possible_outcome(om, server.max_response_bytes));
            assert(r@ == exchange_reply(call_id@, server.max_response_bytes, om));
            assert(self.budgets() == recorded(b1, server_id@, om is Ok, now_ms, old(self).threshold(), old(self).cooldown()));
        }
        r
    }

    /// Reads a resource of a connected server.
    pub fn read_resource(&mut self, args: &JsonValue, call_id: &[u8]) -> (r: ToolResult)
        requires
            old(self).wf(),
        ensures
            final(self).wf(),
            final(self).budgets() == old(self).budgets(),
            final(self).max_calls() == old(self).max_calls(),
            final(self).max_args() == old(self).max_args(),
            final(self).config_error() == old(self).config_error(),
            final(self).session() == old(self).session(),
            match server_gate(old(self).clients(), args@, lit("uri"), call_id@) {
                Err(reply) => r@ == reply && final(self).clients() == old(self).clients() && final(self).catalog() == old(self).catalog(),
                Ok((_, _, server)) => r.ok ==> exists|v: JModel| r@ == success_model(call_id@, #[trigger] guard(v, server.max_response_bytes), 0),
            },
    {
        proof {
            reveal_strlit("server");
            reveal_strlit("uri");
            reveal_strlit("unknown_server");
            reveal_strlit("unknown MCP server");
        }
        let server_id = match required_string(args, ascii_bytes("server").as_slice()) {
            Some(v) => v,
            None => return invalid_args(call_id),
        };
        let uri = match required_string(args, ascii_bytes("uri").as_slice()) {
            Some(v) => v,
            None => return invalid_args(call_id),
        };
        let server = match self.manager.client(server_id) {
            Some(client) => client.server.duplicate(),
            None => return failure_of(call_id, "unknown_server", "unknown MCP server", false),
        };
        let ghost gate = server_gate(old(self).clients(), args@, lit("uri"), call_id@);
        assert(gate matches Ok((_, _, sv)) && sv == server@);
        let request = match self.manager.resource_request(server_id, uri) {
            Ok(q) => q,
            Err(e) => return host_error(call_id, e),
        };
        let r = self.exchange_result(&server, &request, call_id);
        proof {
            if r.ok {
                let v = choose|v: JModel| r@ == success_model(call_id@, #[trigger] guard(v, server.max_response_bytes), 0);
                assert(r@ == success_model(call_id@, guard(v, gate->Ok_0.2.max_response_bytes), 0));
            }
        }
        r
    }

    /// Gets a prompt of a connected server.
    pub fn get_prompt(&mut self, args: &JsonValue, call_id: &[u8]) -> (r: ToolResult)
        requires
            old(self).wf(),
        ensures
            final(self).wf(),
            final(self).budgets() == old(self).budgets(),
            final(self).max_calls() == old(self).max_calls(),
            final(self).max_args() == old(self).max_args(),
            final(self).config_error() == old(self).config_error(),
            final(self).session() == old(self).session(),
            match server_gate(old(self).clients(), args@, lit("name"), call_id@) {
                Err(reply) => r@ == reply && final(self).clients() == old(self).clients() && final(self).catalog() == old(self).catalog(),
                Ok((_, _, server)) => r.ok ==> exists|v: JModel| r@ == success_model(call_id@, #[trigger] guard(v, server.max_response_bytes), 0),
            },
    {
        proof {
            reveal_strlit("server");
            reveal_strlit("name");
            reveal_strlit("arguments");
            reveal_strlit("unknown_server");
            reveal_strlit("unknown MCP server");
        }
        let server_id = match required_string(args, ascii_bytes("server").as_slice()) {
            Some(v) => v,
            None => return invalid_args(call_id),
        };
        let name = match required_string(args, ascii_bytes("name").as_slice()) {
            Some(v) => v,
            None => return invalid_args(call_id),
        };
        let arguments = match args.get(ascii_bytes("arguments").as_slice()) {
            Some(a) => a.duplicate(),
            None => empty_object(),
        };
        let server = match self.manager.client(server_id) {
            Some(client) => client.server.duplicate(),
            None => return failure_of(call_id, "unknown_server", "unknown MCP server", false),
        };
        let ghost gate = server_gate(old(self).clients(), args@, lit("name"), call_id@);
        assert(gate matches Ok((_, _, sv)) && sv == server@);
        let request = match self.manager.prompt_request(server_id, name, arguments) {
            Ok(q) => q,
            Err(e) => return host_error(call_id, e),
        };
        let r = self.exchange_result(&server, &request, call_id);
        proof {
            if r.ok {
                let v = choose|v: JModel| r@ == success_model(call_id@, #[trigger] guard(v, server.max_response_bytes), 0);
                assert(r@ == success_model(call_id@, guard(v, gate->Ok_0.2.max_response_bytes), 0));
            }
        }
        r
    }

}

} // verus!
