//! Host-enforced security boundary for untrusted MCP servers: credential
//! resolution into request-local headers, per-server call budgets with a
//! failure circuit breaker, provenance labels and a bounded audit log.

use vstd::prelude::*;

use crate::keymap::{lemma_to_map_map_values, to_map, KeyMap};
use crate::json::{jentries, jget, jinsert, jtext, json_eq, jopt, object_insert, JModel, JsonValue};
use crate::mcp_config::{AuthConfig, AuthModel, CredentialRef, ServerConfig, ServerModel, TrustLevel};
use crate::mcp_primitives::{Tool, ToolModel};
use crate::mcp_transport::Header;
use crate::http::{contains_line_break, has_line_break};
use crate::text::{ascii_bytes, is_utf8, lit, push_all, to_vec};

verus! {

/// Secret bytes, handed out only on request.
pub struct Secret {
    bytes: Vec<u8>,
}

impl Secret {
    pub closed spec fn view(&self) -> Seq<u8> {
        self.bytes@
    }

    pub fn new(bytes: Vec<u8>) -> (r: Self)
        ensures
            r@ == bytes@,
    {
        Secret { bytes }
    }

    pub fn expose(&self) -> (r: &[u8])
        ensures
            r@ == self@,
    {
        self.bytes.as_slice()
    }

    /// The printed form of a secret: never its bytes.
    pub fn redacted_text(&self) -> (r: Vec<u8>)
        ensures
            r@ == lit("Secret([redacted])"),
    {
        proof {
            reveal_strlit("Secret([redacted])");
        }
        ascii_bytes("Secret([redacted])")
    }
}

/// Why a credential could not be resolved.
#[derive(Debug, Clone, PartialEq, Eq)]
pub struct CredentialError {
    pub message: String,
}

impl CredentialError {
    pub fn new(message: &str) -> (r: Self)
        ensures
            r.message@ == message@,
    {
        CredentialError { message: message.to_owned() }
    }
}

/// Looks up secrets named by credential references; implemented by the
/// host (environment, files, OAuth store, firmware variables).
pub trait CredentialResolver {
    fn resolve(&mut self, reference: &CredentialRef) -> Result<Secret, CredentialError>;
}

/// Request-local authentication headers.
pub struct ResolvedAuth {
    headers: Vec<Header>,
}

impl ResolvedAuth {
    /// The headers.
    pub closed spec fn view(&self) -> Seq<Header> {
        self.headers@
    }

    /// No authentication.
    pub fn none() -> (r: Self)
        ensures
            r@ == Seq::<Header>::empty(),
    {
        ResolvedAuth { headers: Vec::new() }
    }

    pub fn headers(&self) -> (r: &[Header])
        ensures
            r@ == self@,
    {
        self.headers.as_slice()
    }

    /// The printed form of resolved authentication: the header values are
    /// never shown.
    pub fn redacted_text(&self) -> (r: Vec<u8>)
        ensures
            r@ == lit("ResolvedAuth { headers: \"[redacted]\" }"),
    {
        proof {
            reveal_strlit("ResolvedAuth { headers: \"[redacted]\" }");
        }
        ascii_bytes("ResolvedAuth { headers: \"[redacted]\" }")
    }
}

/// The header name and value prefix an authentication mode sends its
/// secret with: `Authorization: Bearer <secret>` for bearer and OAuth,
/// `<header>: <secret>` for API keys.
pub open spec fn auth_header_shape(a: AuthModel) -> Option<(Seq<u8>, Seq<u8>)> {
    match a {
        AuthModel::NoAuth => None,
        AuthModel::Bearer(_) => Some((lit("Authorization"), lit("Bearer "))),
        AuthModel::ApiKey(h, _) => Some((h, seq![])),
        AuthModel::OAuth(_) => Some((lit("Authorization"), lit("Bearer "))),
    }
}

/// The credential an authentication mode resolves.
pub open spec fn auth_credential(a: AuthModel) -> Option<(crate::mcp_config::CredentialScheme, Seq<u8>)> {
    match a {
        AuthModel::NoAuth => None,
        AuthModel::Bearer(c) => Some(c),
        AuthModel::ApiKey(_, c) => Some(c),
        AuthModel::OAuth(c) => Some(c),
    }
}

/// The single sensitive header made from a resolved secret, or why the
/// secret cannot be sent: it must be UTF-8, non-empty and free of line
/// breaks.
pub open spec fn spec_auth_header(name: Seq<u8>, prefix: Seq<u8>, secret: Seq<u8>) -> Result<
    (Seq<u8>, Seq<u8>),
    Seq<char>,
> {
    if !vstd::utf8::valid_utf8(secret) {
        Err("credential must be UTF-8"@)
    } else if secret.len() == 0 {
        Err("credential is empty"@)
    } else if has_line_break(secret) {
        Err("credential contains a line break"@)
    } else {
        Ok((name, prefix + secret))
    }
}

/// Builds the authentication header from a resolved secret.
pub fn auth_header_from_secret(name: &[u8], prefix: &[u8], secret: &[u8]) -> (r: Result<
    ResolvedAuth,
    CredentialError,
>)
    ensures
        match r {
            Ok(a) => spec_auth_header(name@, prefix@, secret@) matches Ok(h) && a@.len() == 1
                && a@[0].name@ == h.0 && a@[0].value@ == h.1 && a@[0].sensitive,
            Err(e) => spec_auth_header(name@, prefix@, secret@) == Err::<(Seq<u8>, Seq<u8>), Seq<char>>(
                e.message@,
            ),
        },
{
    if !is_utf8(secret) {
        return Err(CredentialError::new("credential must be UTF-8"));
    }
    if secret.len() == 0 {
        return Err(CredentialError::new("credential is empty"));
    }
    if contains_line_break(secret) {
        return Err(CredentialError::new("credential contains a line break"));
    }
    let mut value = to_vec(prefix);
    push_all(&mut value, secret);
    let mut headers: Vec<Header> = Vec::new();
    headers.push(Header::sensitive(name, value.as_slice()));
    Ok(ResolvedAuth { headers })
}

/// Resolves the credential of an authentication mode into request headers.
/// Without authentication no header is sent and the resolver is not asked;
/// otherwise the secret the resolver returns is checked and framed by
/// `auth_header_from_secret`.
pub fn resolve_auth<R: CredentialResolver>(auth: &AuthConfig, resolver: &mut R) -> (r: Result<
    ResolvedAuth,
    CredentialError,
>)
    ensures
        auth@ is NoAuth ==> (r matches Ok(a) && a@.len() == 0),
        r matches Ok(a) ==> match auth_header_shape(auth@) {
            None => a@.len() == 0,
            Some((name, prefix)) => a@.len() == 1 && a@[0].name@ == name && a@[0].sensitive
                && a@[0].value@.len() > prefix.len() && a@[0].value@.subrange(
                0,
                prefix.len() as int,
            ) == prefix && !has_line_break(
                a@[0].value@.subrange(prefix.len() as int, a@[0].value@.len() as int),
            ),
        },
{
    proof {
        reveal_strlit("Authorization");
        reveal_strlit("Bearer ");
    }
    let (name, prefix, reference): (Vec<u8>, Vec<u8>, &CredentialRef) = match auth {
        AuthConfig::NoAuth => return Ok(ResolvedAuth::none()),
        AuthConfig::Bearer { credential } => (
            ascii_bytes("Authorization"),
            ascii_bytes("Bearer "),
            credential,
        ),
        AuthConfig::ApiKey { header, credential } => (to_vec(header.as_slice()), Vec::new(), credential),
        AuthConfig::OAuth { profile } => (ascii_bytes("Authorization"), ascii_bytes("Bearer "), profile),
    };
    assert(auth_header_shape(auth@) == Some((name@, prefix@)));
    let secret = match resolver.resolve(reference) {
        Ok(s) => s,
        Err(e) => return Err(e),
    };
    let r = auth_header_from_secret(name.as_slice(), prefix.as_slice(), secret.expose());
    proof {
        if r is Ok {
            let v = r->Ok_0@[0].value@;
            assert(v == prefix@ + secret@);
            assert(v.subrange(0, prefix@.len() as int) =~= prefix@);
            assert(v.subrange(prefix@.len() as int, v.len() as int) =~= secret@);
        }
    }
    r
}

/// What the firewall decides about a tool call.
#[derive(Debug, Clone, PartialEq, Eq)]
pub enum PolicyDecision {
    Allow,
    ApprovalRequired { reason: Vec<u8> },
    Deny { reason: Vec<u8> },
    RateLimited,
    CircuitOpen,
}

/// Model of a policy decision.
pub enum Verdict {
    Allow,
    ApprovalRequired(Seq<u8>),
    Deny(Seq<u8>),
    RateLimited,
    CircuitOpen,
}

impl PolicyDecision {
    pub open spec fn view(&self) -> Verdict {
        match self {
            PolicyDecision::Allow => Verdict::Allow,
            PolicyDecision::ApprovalRequired { reason } => Verdict::ApprovalRequired(reason@),
            PolicyDecision::Deny { reason } => Verdict::Deny(reason@),
            PolicyDecision::RateLimited => Verdict::RateLimited,
            PolicyDecision::CircuitOpen => Verdict::CircuitOpen,
        }
    }
}

/// Per-server call budget and circuit-breaker state.
#[derive(Debug, Clone, Copy, PartialEq, Eq, Structural)]
pub struct ServerBudget {
    pub calls_this_turn: usize,
    pub consecutive_failures: usize,
    pub circuit_open_until_ms: u64,
}

/// A fresh budget.
pub open spec fn fresh_budget() -> ServerBudget {
    ServerBudget { calls_this_turn: 0, consecutive_failures: 0, circuit_open_until_ms: 0 }
}

impl ServerBudget {
    pub fn new() -> (r: Self)
        ensures
            r == fresh_budget(),
    {
        ServerBudget { calls_this_turn: 0, consecutive_failures: 0, circuit_open_until_ms: 0 }
    }
}

/// `a + b`, saturating at `u64::MAX`.
pub open spec fn sat_add_u64(a: u64, b: u64) -> u64 {
    if a + b > u64::MAX {
        u64::MAX
    } else {
        (a + b) as u64
    }
}

/// `a + 1`, saturating at `usize::MAX`.
pub open spec fn sat_inc(a: usize) -> usize {
    if a == usize::MAX {
        a
    } else {
        (a + 1) as usize
    }
}

/// The budget after a call's outcome: success closes the circuit and
/// clears failures; the failure that reaches the threshold opens the
/// circuit for the cooldown and starts counting again.
pub open spec fn spec_record(
    b: ServerBudget,
    success: bool,
    now_ms: u64,
    threshold: usize,
    cooldown_ms: u64,
) -> ServerBudget {
    if success {
        ServerBudget { consecutive_failures: 0, circuit_open_until_ms: 0, ..b }
    } else {
        let f = sat_inc(b.consecutive_failures);
        if f >= threshold {
            ServerBudget {
                consecutive_failures: 0,
                circuit_open_until_ms: sat_add_u64(now_ms, cooldown_ms),
                ..b
            }
        } else {
            ServerBudget { consecutive_failures: f, ..b }
        }
    }
}

/// Host policy for MCP tool calls.
pub struct PolicyFirewall {
    max_calls_per_turn: usize,
    max_argument_bytes: usize,
    failure_threshold: usize,
    circuit_cooldown_ms: u64,
    budgets: KeyMap<ServerBudget>,
}

impl PolicyFirewall {
    /// Budgets by server id.
    pub closed spec fn budgets(&self) -> Map<Seq<u8>, ServerBudget> {
        self.budgets@
    }

    /// Calls allowed per server per turn.
    pub closed spec fn max_calls(&self) -> usize {
        self.max_calls_per_turn
    }

    /// Largest argument object, in serialised bytes.
    pub closed spec fn max_args(&self) -> usize {
        self.max_argument_bytes
    }

    /// Failures in a row that open the circuit.
    pub closed spec fn threshold(&self) -> usize {
        self.failure_threshold
    }

    /// How long an open circuit stays open.
    pub closed spec fn cooldown(&self) -> u64 {
        self.circuit_cooldown_ms
    }

    pub closed spec fn wf(&self) -> bool {
        self.budgets.wf()
    }

    /// Ten calls per turn, 64 KiB of arguments, three failures open the
    /// circuit for 30 s.
    pub fn new() -> (r: Self)
        ensures
            r.wf(),
            r.max_calls() == 10,
            r.max_args() == 64 * 1024,
            r.threshold() == 3,
            r.cooldown() == 30_000,
            r.budgets() == Map::<Seq<u8>, ServerBudget>::empty(),
    {
        PolicyFirewall {
            max_calls_per_turn: 10,
            max_argument_bytes: 64 * 1024,
            failure_threshold: 3,
            circuit_cooldown_ms: 30_000,
            budgets: KeyMap::new(),
        }
    }

    /// Starts a new turn: every server's call count goes back to zero; the
    /// circuit-breaker state is kept.
    pub fn reset_turn(&mut self)
        requires
            old(self).wf(),
        ensures
            final(self).wf(),
            final(self).max_calls() == old(self).max_calls(),
            final(self).max_args() == old(self).max_args(),
            final(self).threshold() == old(self).threshold(),
            final(self).cooldown() == old(self).cooldown(),
            final(self).budgets() == Map::new(
                |k: Seq<u8>| old(self).budgets().contains_key(k),
                |k: Seq<u8>| ServerBudget { calls_this_turn: 0, ..old(self).budgets()[k] },
            ),
    {
        let ghost p0 = self.budgets.pairs();
        let n = self.budgets.len();
        let mut i: usize = 0;
        while i < n
            invariant
                0 <= i <= n,
                n == p0.len(),
                self.budgets.pairs().len() == n,
                self.max_calls_per_turn == old(self).max_calls_per_turn,
                self.max_argument_bytes == old(self).max_argument_bytes,
                self.failure_threshold == old(self).failure_threshold,
                self.circuit_cooldown_ms == old(self).circuit_cooldown_ms,
                p0 == old(self).budgets.pairs(),
                forall|k: int|
                    0 <= k < i ==> #[trigger] self.budgets.pairs()[k] == (
                        p0[k].0,
                        ServerBudget { calls_this_turn: 0, ..p0[k].1 },
                    ),
                forall|k: int| i <= k < n ==> #[trigger] self.budgets.pairs()[k] == p0[k],
            decreases n - i,
        {
            let b = *self.budgets.value_at(i);
            self.budgets.set_value_at(i, ServerBudget { calls_this_turn: 0, ..b });
            i = i + 1;
        }
        proof {
            let f = |b: ServerBudget| ServerBudget { calls_this_turn: 0, ..b };
            lemma_to_map_map_values(p0, self.budgets.pairs(), f);
            old(self).budgets.lemma_wf_update(&self.budgets);
            assert(self.budgets() =~= Map::new(
                |k: Seq<u8>| old(self).budgets().contains_key(k),
                |k: Seq<u8>| ServerBudget { calls_this_turn: 0, ..old(self).budgets()[k] },
            ));
        }
    }

    /// Records the outcome of a call to a server.
    pub fn record_result(&mut self, server_id: &[u8], success: bool, now_ms: u64)
        requires
            old(self).wf(),
        ensures
            final(self).wf(),
            final(self).max_calls() == old(self).max_calls(),
            final(self).max_args() == old(self).max_args(),
            final(self).threshold() == old(self).threshold(),
            final(self).cooldown() == old(self).cooldown(),
            final(self).budgets() == old(self).budgets().insert(
                server_id@,
                spec_record(
                    (if old(self).budgets().contains_key(server_id@) {
                        old(self).budgets()[server_id@]
                    } else {
                        fresh_budget()
                    }),
                    success,
                    now_ms,
                    old(self).threshold(),
                    old(self).cooldown(),
                ),
            ),
    {
        let mut b: ServerBudget = match self.budgets.get(server_id) {
            Some(b) => *b,
            None => ServerBudget::new(),
        };
        if success {
            b.consecutive_failures = 0;
            b.circuit_open_until_ms = 0;
        } else {
            b.consecutive_failures = if b.consecutive_failures == usize::MAX {
                usize::MAX
            } else {
                b.consecutive_failures + 1
            };
            if b.consecutive_failures >= self.failure_threshold {
                b.circuit_open_until_ms = if now_ms > u64::MAX - self.circuit_cooldown_ms {
                    u64::MAX
                } else {
                    now_ms + self.circuit_cooldown_ms
                };
                b.consecutive_failures = 0;
            }
        }
        self.budgets.insert(server_id, b);
    }
}

/// Where a result came from.
#[derive(Debug, Clone, PartialEq, Eq)]
pub struct Provenance {
    pub server_id: Vec<u8>,
    pub primitive: Vec<u8>,
    pub trust: TrustLevel,
}

/// One audited MCP operation.
#[derive(Debug, Clone, PartialEq, Eq)]
pub struct AuditEvent {
    pub timestamp_ms: u64,
    pub server_id: Vec<u8>,
    pub operation: Vec<u8>,
    pub decision: Vec<u8>,
    pub request_id: Option<Vec<u8>>,
}

/// The most recent audit events, oldest first, up to a capacity.
pub struct AuditLog {
    capacity: usize,
    events: Vec<AuditEvent>,
}

impl AuditLog {
    /// The events held.
    pub closed spec fn view(&self) -> Seq<AuditEvent> {
        self.events@
    }

    /// How many events are kept.
    pub closed spec fn capacity(&self) -> nat {
        self.capacity as nat
    }

    /// Holds at most `capacity` events, and the capacity is positive.
    #[verifier::type_invariant]
    spec fn bounded(&self) -> bool {
        self.capacity >= 1 && self.events@.len() <= self.capacity
    }

    /// An empty log keeping at least one event.
    pub fn new(capacity: usize) -> (r: Self)
        ensures
            r@ == Seq::<AuditEvent>::empty(),
            r.capacity() == if capacity >= 1 {
                capacity as nat
            } else {
                1
            },
            r.capacity() >= 1,
    {
        AuditLog { capacity: if capacity >= 1 { capacity } else { 1 }, events: Vec::new() }
    }

    /// Appends an event, dropping the oldest when full; the log stays
    /// within its capacity and the event is the newest.
    pub fn record(&mut self, event: AuditEvent)
        ensures
            final(self).capacity() == old(self).capacity(),
            final(self)@ == (if old(self)@.len() == old(self).capacity() {
                old(self)@.drop_first()
            } else {
                old(self)@
            }).push(event),
            final(self)@.len() <= final(self).capacity(),
            final(self)@.last() == event,
    {
        proof {
            use_type_invariant(&*self);
        }
        let ghost e0 = self.events@;
        let mut events: Vec<AuditEvent> = Vec::new();
        std::mem::swap(&mut events, &mut self.events);
        if events.len() == self.capacity {
            events.remove(0);
            assert(events@ =~= e0.drop_first());
        }
        events.push(event);
        self.events = events;
    }

    /// The events held, oldest first: never more than the capacity, which
    /// is positive.
    pub fn events(&self) -> (r: &[AuditEvent])
        ensures
            r@ == self@,
            r@.len() <= self.capacity(),
            self.capacity() >= 1,
    {
        proof {
            use_type_invariant(self);
        }
        self.events.as_slice()
    }
}

/// The log keeps the newest event last and never holds more than its
/// capacity.
pub proof fn lemma_audit_bounded(log: Seq<AuditEvent>, capacity: nat, event: AuditEvent)
    requires
        capacity >= 1,
        log.len() <= capacity,
    ensures
        ({
            let next = (if log.len() == capacity {
                log.drop_first()
            } else {
                log
            }).push(event);
            next.len() <= capacity && next.last() == event
        }),
{
}


/// A user's approval of one exact call, until a deadline.
pub struct ApprovalGrant {
    pub server_id: Vec<u8>,
    pub tool_name: Vec<u8>,
    pub exact_arguments: JsonValue,
    pub expires_at_ms: u64,
}

/// Model of an approval grant.
pub struct GrantModel {
    pub server_id: Seq<u8>,
    pub tool_name: Seq<u8>,
    pub exact_arguments: JModel,
    pub expires_at_ms: u64,
}

/// Whether a grant covers a call at `now_ms`: not expired, same server,
/// tool and arguments.
pub open spec fn grant_matches(g: GrantModel, server_id: Seq<u8>, tool_name: Seq<u8>, args: JModel, now_ms: u64) -> bool {
    now_ms <= g.expires_at_ms && g.server_id == server_id && g.tool_name == tool_name && g.exact_arguments == args
}

impl ApprovalGrant {
    pub open spec fn view(&self) -> GrantModel {
        GrantModel {
            server_id: self.server_id@,
            tool_name: self.tool_name@,
            exact_arguments: self.exact_arguments@,
            expires_at_ms: self.expires_at_ms,
        }
    }

    pub fn matches(&self, server_id: &[u8], tool_name: &[u8], arguments: &JsonValue, now_ms: u64) -> (r: bool)
        ensures
            r == grant_matches(self@, server_id@, tool_name@, arguments@, now_ms),
    {
        now_ms <= self.expires_at_ms && crate::text::bytes_eq(self.server_id.as_slice(), server_id)
            && crate::text::bytes_eq(self.tool_name.as_slice(), tool_name) && json_eq(&self.exact_arguments, arguments)
    }
}

/// A boolean annotation of a tool.
pub open spec fn ann_bool(annotations: Option<JModel>, key: Seq<u8>) -> Option<bool> {
    match annotations {
        Some(a) => match jget(a, key) {
            Some(JModel::Bool(b)) => Some(b),
            _ => None,
        },
        None => None,
    }
}

fn annotation_bool(tool: &Tool, key: &[u8]) -> (r: Option<bool>)
    ensures
        r == ann_bool(jopt(tool.annotations), key@),
{
    match &tool.annotations {
        Some(a) => match a.get(key) {
            Some(v) => v.as_bool(),
            None => None,
        },
        None => None,
    }
}

/// The firewall's decision about a tool call and the budgets after it.
/// Once the static checks pass, the server gets a budget if it had none;
/// an allowed call counts against it.
pub open spec fn check_spec(
    budgets: Map<Seq<u8>, ServerBudget>,
    max_calls: usize,
    max_args: usize,
    server: ServerModel,
    tool: ToolModel,
    args: JModel,
    approval: Option<GrantModel>,
    now_ms: u64,
) -> (Verdict, Map<Seq<u8>, ServerBudget>) {
    if !server.enabled || !server.allow_tools {
        (Verdict::Deny(lit("server or tool capability is disabled")), budgets)
    } else if !(args is Object) {
        (Verdict::Deny(lit("tool arguments must be an object")), budgets)
    } else if jtext(args).len() > max_args {
        (Verdict::Deny(lit("tool arguments exceed the configured limit")), budgets)
    } else if server.allowed_tools.len() > 0 && !server.allowed_tools.contains(tool.name) {
        (Verdict::Deny(lit("tool is not in the endpoint allowlist")), budgets)
    } else {
        let b = if budgets.contains_key(server.id) {
            budgets[server.id]
        } else {
            fresh_budget()
        };
        let bs = budgets.insert(server.id, b);
        if b.circuit_open_until_ms > now_ms {
            (Verdict::CircuitOpen, bs)
        } else if b.calls_this_turn >= max_calls {
            (Verdict::RateLimited, bs)
        } else {
            let ro = ann_bool(tool.annotations, lit("readOnlyHint"));
            let de = ann_bool(tool.annotations, lit("destructiveHint"));
            if server.trust == TrustLevel::ReadOnly && ro != Some(true) {
                (Verdict::Deny(lit("read-only endpoint policy requires an explicitly read-only tool")), bs)
            } else {
                let exact = match approval {
                    Some(g) => grant_matches(g, server.id, tool.name, args, now_ms),
                    None => false,
                };
                let required = server.require_approval || server.trust == TrustLevel::Untrusted || de == Some(true);
                if required && !exact {
                    (Verdict::ApprovalRequired(if de == Some(true) {
                        lit("tool is annotated as destructive")
                    } else {
                        lit("endpoint policy requires exact-call approval")
                    }), bs)
                } else {
                    (Verdict::Allow, budgets.insert(server.id, ServerBudget { calls_this_turn: sat_inc(b.calls_this_turn), ..b }))
                }
            }
        }
    }
}

/// Calls a server was allowed this turn.
pub open spec fn calls_of(budgets: Map<Seq<u8>, ServerBudget>, id: Seq<u8>) -> nat {
    if budgets.contains_key(id) {
        budgets[id].calls_this_turn as nat
    } else {
        0
    }
}

/// The per-turn limit holds across calls: a check allows a call only while
/// the server's count is under the limit, an allowed call adds one to it,
/// and every other verdict, like every other server's count, leaves it as
/// it was.
pub proof fn lemma_turn_limit(
    budgets: Map<Seq<u8>, ServerBudget>,
    max_calls: usize,
    max_args: usize,
    server: ServerModel,
    tool: ToolModel,
    args: JModel,
    approval: Option<GrantModel>,
    now_ms: u64,
)
    ensures
        ({
            let (v, after) = check_spec(budgets, max_calls, max_args, server, tool, args, approval, now_ms);
            &&& calls_of(budgets, server.id) >= max_calls ==> !(v is Allow)
            &&& v is Allow ==> calls_of(after, server.id) == calls_of(budgets, server.id) + 1
            &&& !(v is Allow) ==> calls_of(after, server.id) == calls_of(budgets, server.id)
            &&& forall|k: Seq<u8>| k != server.id ==> #[trigger] calls_of(after, k) == calls_of(budgets, k)
        }),
{
}

/// Recording an outcome leaves every server's call count as it was; a new
/// turn sets every count to zero.
pub proof fn lemma_counts_outside_checks(
    budgets: Map<Seq<u8>, ServerBudget>,
    id: Seq<u8>,
    success: bool,
    now_ms: u64,
    threshold: usize,
    cooldown_ms: u64,
)
    ensures
        ({
            let b = if budgets.contains_key(id) { budgets[id] } else { fresh_budget() };
            let after = budgets.insert(id, spec_record(b, success, now_ms, threshold, cooldown_ms));
            forall|k: Seq<u8>| #[trigger] calls_of(after, k) == calls_of(budgets, k)
        }),
        ({
            let reset = Map::new(
                |k: Seq<u8>| budgets.contains_key(k),
                |k: Seq<u8>| ServerBudget { calls_this_turn: 0, ..budgets[k] },
            );
            forall|k: Seq<u8>| #[trigger] calls_of(reset, k) == 0
        }),
{
}

fn deny(reason: &str) -> (r: PolicyDecision)
    requires
        reason.is_ascii(),
    ensures
        r@ == Verdict::Deny(lit(reason)),
{
    PolicyDecision::Deny { reason: ascii_bytes(reason) }
}

fn contains_tool(names: &Vec<Vec<u8>>, name: &[u8]) -> (r: bool)
    ensures
        r == crate::mcp_config::strings_view(names@).contains(name@),
{
    let ghost sv = crate::mcp_config::strings_view(names@);
    let mut i: usize = 0;
    while i < names.len()
        invariant
            0 <= i <= names@.len(),
            sv == crate::mcp_config::strings_view(names@),
            forall|k: int| 0 <= k < i ==> sv[k] != name@,
        decreases names.len() - i,
    {
        if crate::text::bytes_eq(names[i].as_slice(), name) {
            assert(sv[i as int] == name@);
            return true;
        }
        i = i + 1;
    }
    false
}

impl PolicyFirewall {
    /// Decides whether a tool call may go ahead.
    pub fn check_tool(
        &mut self,
        server: &ServerConfig,
        tool: &Tool,
        arguments: &JsonValue,
        approval: Option<&ApprovalGrant>,
        now_ms: u64,
    ) -> (r: PolicyDecision)
        requires
            old(self).wf(),
        ensures
            final(self).wf(),
            final(self).max_calls() == old(self).max_calls(),
            final(self).max_args() == old(self).max_args(),
            final(self).threshold() == old(self).threshold(),
            final(self).cooldown() == old(self).cooldown(),
            (r@, final(self).budgets()) == check_spec(
                old(self).budgets(),
                old(self).max_calls(),
                old(self).max_args(),
                server@,
                tool@,
                arguments@,
                match approval {
                    Some(g) => Some(g@),
                    None => None,
                },
                now_ms,
            ),
    {
        proof {
            reveal_strlit("server or tool capability is disabled");
            reveal_strlit("tool arguments must be an object");
            reveal_strlit("tool arguments exceed the configured limit");
            reveal_strlit("tool is not in the endpoint allowlist");
            reveal_strlit("readOnlyHint");
            reveal_strlit("destructiveHint");
            reveal_strlit("read-only endpoint policy requires an explicitly read-only tool");
            reveal_strlit("tool is annotated as destructive");
            reveal_strlit("endpoint policy requires exact-call approval");
        }
        if !server.enabled || !server.allow_tools {
            return deny("server or tool capability is disabled");
        }
        if arguments.as_object().is_none() {
            return deny("tool arguments must be an object");
        }
        if arguments.to_json_string().len() > self.max_argument_bytes {
            return deny("tool arguments exceed the configured limit");
        }
        if server.allowed_tools.len() > 0 && !contains_tool(&server.allowed_tools, tool.name.as_slice()) {
            return deny("tool is not in the endpoint allowlist");
        }
        let b: ServerBudget = match self.budgets.get(server.id.as_slice()) {
            Some(b) => *b,
            None => ServerBudget::new(),
        };
        self.budgets.insert(server.id.as_slice(), b);
        if b.circuit_open_until_ms > now_ms {
            return PolicyDecision::CircuitOpen;
        }
        if b.calls_this_turn >= self.max_calls_per_turn {
            return PolicyDecision::RateLimited;
        }
        let read_only_hint = annotation_bool(tool, ascii_bytes("readOnlyHint").as_slice());
        let destructive_hint = annotation_bool(tool, ascii_bytes("destructiveHint").as_slice());
        let destructive = match destructive_hint {
            Some(true) => true,
            _ => false,
        };
        let read_only = match read_only_hint {
            Some(true) => true,
            _ => false,
        };
        if server.trust == TrustLevel::ReadOnly && !read_only {
            return deny("read-only endpoint policy requires an explicitly read-only tool");
        }
        let exact_approval = match approval {
            Some(grant) => grant.matches(server.id.as_slice(), tool.name.as_slice(), arguments, now_ms),
            None => false,
        };
        let approval_required = server.require_approval || server.trust == TrustLevel::Untrusted || destructive;
        if approval_required && !exact_approval {
            return PolicyDecision::ApprovalRequired {
                reason: if destructive {
                    ascii_bytes("tool is annotated as destructive")
                } else {
                    ascii_bytes("endpoint policy requires exact-call approval")
                },
            };
        }
        let nb = ServerBudget {
            calls_this_turn: if b.calls_this_turn == usize::MAX {
                usize::MAX
            } else {
                b.calls_this_turn + 1
            },
            ..b
        };
        self.budgets.insert(server.id.as_slice(), nb);
        proof {
            assert(self.budgets() =~= old(self).budgets().insert(server.id@, nb));
        }
        PolicyDecision::Allow
    }
}

/// Whether a member name holds a secret: its lower-case form with `-`
/// read as `_` is one of the secret names.
pub open spec fn sensitive(k: Seq<u8>) -> bool {
    let n = norm_key(k);
    n == lit("authorization") || n == lit("password") || n == lit("token") || n == lit("access_token")
        || n == lit("refresh_token") || n == lit("api_key") || n == lit("secret") || n == lit("cookie")
}

/// A member name in lower case with `-` replaced by `_`.
pub open spec fn norm_key(k: Seq<u8>) -> Seq<u8> {
    k.map_values(|b: u8| if crate::text::lower(b) == 45 { 95u8 } else { crate::text::lower(b) })
}

/// A value with every secret member's value replaced by `[redacted]`, at
/// any depth.
pub open spec fn redact(v: JModel) -> JModel
    decreases v, 0nat,
{
    match v {
        JModel::Object(m) => JModel::Object(crate::json::object_of(redact_members(m))),
        JModel::Array(a) => JModel::Array(redact_list(a)),
        _ => v,
    }
}

pub open spec fn redact_members(m: Seq<(Seq<u8>, JModel)>) -> Seq<(Seq<u8>, JModel)>
    decreases m, 1nat,
{
    if m.len() == 0 {
        seq![]
    } else {
        redact_members(m.drop_last()).push(
            (m.last().0, if sensitive(m.last().0) {
                JModel::Str(lit("[redacted]"))
            } else {
                redact(m.last().1)
            }),
        )
    }
}

pub open spec fn redact_list(a: Seq<JModel>) -> Seq<JModel>
    decreases a, 1nat,
{
    if a.len() == 0 {
        seq![]
    } else {
        redact_list(a.drop_last()).push(redact(a.last()))
    }
}

fn norm_key_exec(k: &[u8]) -> (r: Vec<u8>)
    ensures
        r@ == norm_key(k@),
{
    let mut out: Vec<u8> = Vec::new();
    let mut i: usize = 0;
    while i < k.len()
        invariant
            0 <= i <= k@.len(),
            out@ =~= norm_key(k@.subrange(0, i as int)),
        decreases k.len() - i,
    {
        let b = crate::text::to_lower_byte(k[i]);
        out.push(if b == 45 { 95 } else { b });
        proof {
            assert(k@.subrange(0, i + 1) =~= k@.subrange(0, i as int).push(k@[i as int]));
        }
        i = i + 1;
    }
    assert(k@.subrange(0, i as int) =~= k@);
    out
}

fn is_sensitive(k: &[u8]) -> (r: bool)
    ensures
        r == sensitive(k@),
{
    proof {
        reveal_strlit("authorization"); reveal_strlit("password"); reveal_strlit("token"); reveal_strlit("access_token");
        reveal_strlit("refresh_token"); reveal_strlit("api_key"); reveal_strlit("secret"); reveal_strlit("cookie");
    }
    let n = norm_key_exec(k);
    let n = n.as_slice();
    crate::text::bytes_eq(n, ascii_bytes("authorization").as_slice()) || crate::text::bytes_eq(n, ascii_bytes("password").as_slice())
        || crate::text::bytes_eq(n, ascii_bytes("token").as_slice()) || crate::text::bytes_eq(n, ascii_bytes("access_token").as_slice())
        || crate::text::bytes_eq(n, ascii_bytes("refresh_token").as_slice()) || crate::text::bytes_eq(n, ascii_bytes("api_key").as_slice())
        || crate::text::bytes_eq(n, ascii_bytes("secret").as_slice()) || crate::text::bytes_eq(n, ascii_bytes("cookie").as_slice())
}

fn redact_json(value: &JsonValue) -> (r: JsonValue)
    ensures
        r@ == redact(value@),
    decreases value,
{
    match value {
        JsonValue::Object(values) => {
            let mut output: Vec<(Vec<u8>, JsonValue)> = Vec::new();
            let mut i: usize = 0;
            assert(jentries(output@) =~= seq![]);
            assert(crate::json::jentries(values@.subrange(0, 0)) =~= seq![]);
            while i < values.len()
                invariant
                    0 <= i <= values@.len(),
                    *value == JsonValue::Object(*values),
                    jentries(output@) == crate::json::object_of(redact_members(crate::json::jentries(values@.subrange(0, i as int)))),
                decreases values.len() - i,
            {
                assert(decreases_to!(*value => (*value)->Object_0));
                assert(decreases_to!(*values => values@));
                assert(decreases_to!(values@ => values@[i as int]));
                assert(decreases_to!(values@[i as int] => values@[i as int].1));
                proof { reveal_strlit("[redacted]"); }
                let key = &values[i].0;
                let nv = if is_sensitive(key.as_slice()) {
                    JsonValue::Str(ascii_bytes("[redacted]"))
                } else {
                    redact_json(&values[i].1)
                };
                let ghost prev = crate::json::jentries(values@.subrange(0, i as int));
                proof {
                    assert(values@.subrange(0, i + 1).drop_last() =~= values@.subrange(0, i as int));
                    let cur = crate::json::jentries(values@.subrange(0, i + 1));
                    assert(cur.drop_last() =~= prev);
                    assert(cur.last() == (key@, values@[i as int].1@));
                    let x = (key@, nv@);
                    assert(redact_members(cur) == redact_members(prev).push(x));
                    assert(redact_members(prev).push(x).drop_last() =~= redact_members(prev));
                }
                object_insert(&mut output, to_vec(key.as_slice()), nv);
                i = i + 1;
            }
            assert(values@.subrange(0, i as int) =~= values@);
            JsonValue::Object(output)
        },
        JsonValue::Array(items) => {
            let mut output: Vec<JsonValue> = Vec::new();
            let mut i: usize = 0;
            assert(crate::json::jviews(output@) =~= seq![]);
            assert(crate::json::jviews(items@.subrange(0, 0)) =~= seq![]);
            while i < items.len()
                invariant
                    0 <= i <= items@.len(),
                    *value == JsonValue::Array(*items),
                    crate::json::jviews(output@) == redact_list(crate::json::jviews(items@.subrange(0, i as int))),
                decreases items.len() - i,
            {
                assert(decreases_to!(*value => (*value)->Array_0));
                assert(decreases_to!(*items => items@));
                assert(decreases_to!(items@ => items@[i as int]));
                let nv = redact_json(&items[i]);
                let ghost o0 = output@;
                output.push(nv);
                proof {
                    assert(output@.drop_last() =~= o0);
                    assert(items@.subrange(0, i + 1).drop_last() =~= items@.subrange(0, i as int));
                    let cur = crate::json::jviews(items@.subrange(0, i + 1));
                    assert(cur.drop_last() =~= crate::json::jviews(items@.subrange(0, i as int)));
                    assert(cur.last() == items@[i as int]@);
                    assert(crate::json::jviews(output@) == crate::json::jviews(o0).push(nv@));
                }
                i = i + 1;
            }
            assert(items@.subrange(0, i as int) =~= items@);
            JsonValue::Array(output)
        },
        _ => value.duplicate(),
    }
}

/// A result filtered for the model: secrets redacted, replaced by a short
/// notice when its text is longer than the limit, labelled with its
/// provenance.
pub struct GuardedResult {
    pub value: JsonValue,
    pub provenance: Provenance,
    /// External content is data, never an instruction source.
    pub untrusted_content: bool,
    pub truncated: bool,
}

/// The notice that stands for a result over the output limit.
pub open spec fn too_long_notice() -> JModel {
    JModel::Object(jinsert(
        jinsert(seq![], lit("truncated"), JModel::Bool(true)),
        lit("message"),
        JModel::Str(lit("MCP result exceeded the host output limit")),
    ))
}

impl GuardedResult {
    pub fn filter(value: &JsonValue, provenance: Provenance, max_bytes: usize) -> (r: GuardedResult)
        ensures
            jtext(redact(value@)).len() > max_bytes ==> r.value@ == too_long_notice() && r.truncated,
            jtext(redact(value@)).len() <= max_bytes ==> r.value@ == redact(value@) && !r.truncated,
            r.untrusted_content == (provenance.trust != TrustLevel::Trusted),
            r.provenance == provenance,
    {
        let mut redacted = redact_json(value);
        let mut truncated = false;
        if redacted.to_json_string().len() > max_bytes {
            proof { reveal_strlit("truncated"); reveal_strlit("message"); reveal_strlit("MCP result exceeded the host output limit"); }
            let mut m: Vec<(Vec<u8>, JsonValue)> = Vec::new();
            assert(jentries(m@) =~= seq![]);
            object_insert(&mut m, ascii_bytes("truncated"), JsonValue::Bool(true));
            object_insert(&mut m, ascii_bytes("message"), JsonValue::Str(ascii_bytes("MCP result exceeded the host output limit")));
            redacted = JsonValue::Object(m);
            truncated = true;
        }
        let untrusted_content = provenance.trust != TrustLevel::Trusted;
        GuardedResult { value: redacted, provenance, untrusted_content, truncated }
    }
}


/// Whether a value shows no secret: every member with a secret name, at
/// any depth, reads `[redacted]`.
pub open spec fn hidden(v: JModel) -> bool
    decreases v, 0nat,
{
    match v {
        JModel::Object(m) => hidden_members(m),
        JModel::Array(a) => hidden_list(a),
        _ => true,
    }
}

pub open spec fn hidden_members(m: Seq<(Seq<u8>, JModel)>) -> bool
    decreases m, 1nat,
{
    if m.len() == 0 {
        true
    } else {
        hidden_members(m.drop_last()) && if sensitive(m.last().0) {
            m.last().1 == JModel::Str(lit("[redacted]"))
        } else {
            hidden(m.last().1)
        }
    }
}

pub open spec fn hidden_list(a: Seq<JModel>) -> bool
    decreases a, 1nat,
{
    if a.len() == 0 {
        true
    } else {
        hidden_list(a.drop_last()) && hidden(a.last())
    }
}

/// One member shows no secret.
pub open spec fn member_hidden(e: (Seq<u8>, JModel)) -> bool {
    if sensitive(e.0) {
        e.1 == JModel::Str(lit("[redacted]"))
    } else {
        hidden(e.1)
    }
}

proof fn lemma_hidden_members_all(m: Seq<(Seq<u8>, JModel)>)
    ensures
        hidden_members(m) <==> forall|i: int| 0 <= i < m.len() ==> member_hidden(#[trigger] m[i]),
    decreases m.len(),
{
    if m.len() > 0 {
        lemma_hidden_members_all(m.drop_last());
        if hidden_members(m) {
            assert forall|i: int| 0 <= i < m.len() implies member_hidden(#[trigger] m[i]) by {
                if i < m.len() - 1 {
                    assert(m[i] == m.drop_last()[i]);
                }
            }
        }
        if forall|i: int| 0 <= i < m.len() ==> member_hidden(#[trigger] m[i]) {
            assert forall|i: int| 0 <= i < m.drop_last().len() implies member_hidden(#[trigger] m.drop_last()[i]) by {
                assert(m.drop_last()[i] == m[i]);
            }
            assert(member_hidden(m[m.len() - 1]));
        }
    }
}

proof fn lemma_jinsert_hidden(s: Seq<(Seq<u8>, JModel)>, k: Seq<u8>, v: JModel)
    requires
        forall|i: int| 0 <= i < s.len() ==> member_hidden(#[trigger] s[i]),
        member_hidden((k, v)),
    ensures
        forall|j: int| 0 <= j < jinsert(s, k, v).len() ==> member_hidden(#[trigger] jinsert(s, k, v)[j]),
    decreases s.len(),
{
    let r = jinsert(s, k, v);
    if s.len() == 0 {
    } else if s[0].0 == k {
        assert forall|j: int| 0 <= j < r.len() implies member_hidden(#[trigger] r[j]) by {
            if j > 0 {
                assert(r[j] == s[j]);
            }
        }
    } else if crate::sysconfig::bytes_lt(k, s[0].0) {
        assert forall|j: int| 0 <= j < r.len() implies member_hidden(#[trigger] r[j]) by {
            if j > 0 {
                assert(r[j] == s[j - 1]);
            }
        }
    } else {
        let t = s.drop_first();
        assert forall|i: int| 0 <= i < t.len() implies member_hidden(#[trigger] t[i]) by {
            assert(t[i] == s[i + 1]);
        }
        lemma_jinsert_hidden(t, k, v);
        assert forall|j: int| 0 <= j < r.len() implies member_hidden(#[trigger] r[j]) by {
            if j > 0 {
                assert(r[j] == jinsert(t, k, v)[j - 1]);
            }
        }
    }
}

proof fn lemma_object_of_hidden(pairs: Seq<(Seq<u8>, JModel)>)
    requires
        forall|i: int| 0 <= i < pairs.len() ==> member_hidden(#[trigger] pairs[i]),
    ensures
        forall|j: int|
            0 <= j < crate::json::object_of(pairs).len() ==> member_hidden(#[trigger] crate::json::object_of(pairs)[j]),
    decreases pairs.len(),
{
    if pairs.len() > 0 {
        let p = pairs.drop_last();
        assert forall|i: int| 0 <= i < p.len() implies member_hidden(#[trigger] p[i]) by {
            assert(p[i] == pairs[i]);
        }
        lemma_object_of_hidden(p);
        assert(member_hidden(pairs[pairs.len() - 1]));
        lemma_jinsert_hidden(crate::json::object_of(p), pairs.last().0, pairs.last().1);
    }
}

proof fn lemma_redact_hidden(v: JModel)
    ensures
        hidden(redact(v)),
    decreases v, 0nat,
{
    match v {
        JModel::Object(m) => {
            lemma_redact_members_hidden(m);
            lemma_object_of_hidden(redact_members(m));
            lemma_hidden_members_all(crate::json::object_of(redact_members(m)));
        },
        JModel::Array(a) => {
            lemma_redact_list_hidden(a);
        },
        _ => {},
    }
}

proof fn lemma_redact_members_hidden(m: Seq<(Seq<u8>, JModel)>)
    ensures
        forall|i: int| 0 <= i < redact_members(m).len() ==> member_hidden(#[trigger] redact_members(m)[i]),
    decreases m, 1nat,
{
    if m.len() > 0 {
        lemma_redact_members_hidden(m.drop_last());
        if !sensitive(m.last().0) {
            lemma_redact_hidden(m.last().1);
        }
        let r = redact_members(m);
        let r0 = redact_members(m.drop_last());
        assert forall|i: int| 0 <= i < r.len() implies member_hidden(#[trigger] r[i]) by {
            if i < r0.len() {
                assert(r[i] == r0[i]);
            }
        }
    }
}

proof fn lemma_redact_list_hidden(a: Seq<JModel>)
    ensures
        hidden_list(redact_list(a)),
    decreases a, 1nat,
{
    if a.len() > 0 {
        lemma_redact_list_hidden(a.drop_last());
        lemma_redact_hidden(a.last());
        assert(redact_list(a).drop_last() =~= redact_list(a.drop_last()));
    }
}

/// The output filter hides every secret: in a redacted value, every
/// member with a secret name, at any depth, reads `[redacted]`.
pub proof fn lemma_redact_hides_secrets(v: JModel)
    ensures
        hidden(redact(v)),
{
    lemma_redact_hidden(v);
}


/// Whether a call passes the firewall's static checks (server enabled for
/// tools, object arguments within the size limit, tool allowlisted).
pub open spec fn passes_static_checks(max_args: usize, server: ServerModel, tool: ToolModel, args: JModel) -> bool {
    &&& server.enabled && server.allow_tools
    &&& args is Object
    &&& jtext(args).len() <= max_args
    &&& (server.allowed_tools.len() == 0 || server.allowed_tools.contains(tool.name))
}

/// The circuit breaker: the failure that reaches the threshold opens the
/// circuit, so that until the cooldown has passed every call to the
/// server that passes the static checks is refused as `CircuitOpen`; a
/// success closes it again.
pub proof fn lemma_circuit_breaker(
    budgets: Map<Seq<u8>, ServerBudget>,
    max_calls: usize,
    max_args: usize,
    server: ServerModel,
    tool: ToolModel,
    args: JModel,
    approval: Option<GrantModel>,
    b: ServerBudget,
    threshold: usize,
    cooldown: u64,
    failed_at: u64,
    now: u64,
)
    requires
        passes_static_checks(max_args, server, tool, args),
    ensures
        sat_inc(b.consecutive_failures) >= threshold && now < sat_add_u64(failed_at, cooldown) ==> check_spec(
            budgets.insert(server.id, spec_record(b, false, failed_at, threshold, cooldown)),
            max_calls,
            max_args,
            server,
            tool,
            args,
            approval,
            now,
        ).0 == Verdict::CircuitOpen,
        check_spec(
            budgets.insert(server.id, spec_record(b, true, failed_at, threshold, cooldown)),
            max_calls,
            max_args,
            server,
            tool,
            args,
            approval,
            now,
        ).0 != Verdict::CircuitOpen,
{
}

} // verus!
