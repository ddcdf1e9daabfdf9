//! The host's MCP clients: one isolated client per configured server,
//! protocol discovery, and the requests each client may send.

use vstd::prelude::*;

use crate::json::{
    empty_object, get_opt_str, get_str, jget, jopt, opt_str_at, sopt, str_at, JModel, JsonValue,
};
use crate::mcp_config::{McpConfig, ServerConfig, ServerModel};
use crate::mcp_primitives::{page_ttl, Catalog, CatalogModel};
use crate::mcp_wire::{
    metadata_json, num_ttl, number_ttl, with_meta, ClientIdentity, RequestId, RequestMetadata,
    RidModel, RpcRequest, RpcResponse, LATEST_PROTOCOL_VERSION, CLIENT_VERSION,
};
use crate::sorted_map::{
    lemma_smap_sinsert, lemma_smap_sremove, pairs_view, sget, sinsert, sm_find, sm_get, sm_insert,
    smap, lemma_sfind, sfind,
};
use crate::text::{ascii_bytes, bytes_eq, dec, lit, push_all, push_dec, to_vec};

verus! {

/// Where a client stands.
#[derive(Debug, Clone, Copy, PartialEq, Eq, Structural)]
pub enum ClientStatus {
    Configured,
    Discovering,
    Ready,
    LegacyAdapterRequired,
    Degraded,
    Disabled,
}

/// What kind of client failure occurred.
#[derive(Debug, Clone, Copy, PartialEq, Eq, Structural)]
pub enum ClientErrorKind {
    UnknownServer,
    Disabled,
    NotReady,
    InvalidDiscovery,
    UnsupportedProtocol,
    Remote,
}

/// A client failure.
#[derive(Debug)]
pub struct ClientError {
    pub kind: ClientErrorKind,
    pub message: Vec<u8>,
}

impl ClientError {
    pub fn new(kind: ClientErrorKind, message: &str) -> (r: ClientError)
        requires
            message.is_ascii(),
        ensures
            r.kind == kind,
            r.message@ == lit(message),
    {
        ClientError { kind, message: ascii_bytes(message) }
    }

    fn invalid_discovery(message: &str) -> (r: ClientError)
        requires
            message.is_ascii(),
        ensures
            r.kind == ClientErrorKind::InvalidDiscovery,
            r.message@ == lit(message),
    {
        ClientError::new(ClientErrorKind::InvalidDiscovery, message)
    }
}

/// Who a server says it is.
#[derive(Debug)]
pub struct ServerIdentity {
    pub name: Vec<u8>,
    pub version: Vec<u8>,
    pub title: Option<Vec<u8>>,
}

/// Model of a server identity.
pub struct IdentityModel {
    pub name: Seq<u8>,
    pub version: Seq<u8>,
    pub title: Option<Seq<u8>>,
}

impl ServerIdentity {
    pub open spec fn view(&self) -> IdentityModel {
        IdentityModel { name: self.name@, version: self.version@, title: sopt(self.title) }
    }
}

/// The message for an optional discovery string of the wrong type.
pub open spec fn discovery_type_msg() -> Seq<u8> {
    lit("optional discovery string has wrong type")
}

/// What a `serverInfo` value reads as: string `name` and `version`, an
/// optional string `title`.
pub open spec fn identity_of(v: JModel) -> Result<IdentityModel, Seq<u8>> {
    if str_at(v, lit("name")) is None {
        Err(lit("serverInfo.name is required"))
    } else if str_at(v, lit("version")) is None {
        Err(lit("serverInfo.version is required"))
    } else if opt_str_at(v, lit("title")) is Err {
        Err(discovery_type_msg())
    } else {
        Ok(
            IdentityModel {
                name: str_at(v, lit("name"))->Some_0,
                version: str_at(v, lit("version"))->Some_0,
                title: opt_str_at(v, lit("title"))->Ok_0,
            },
        )
    }
}

fn optional_string(value: &JsonValue, field: &[u8]) -> (r: Result<Option<Vec<u8>>, ClientError>)
    ensures
        match r {
            Ok(o) => opt_str_at(value@, field@) == Ok::<Option<Seq<u8>>, ()>(sopt(o)),
            Err(e) => opt_str_at(value@, field@) is Err && e.kind == ClientErrorKind::InvalidDiscovery
                && e.message@ == discovery_type_msg(),
        },
{
    proof { reveal_strlit("optional discovery string has wrong type"); }
    match get_opt_str(value, field) {
        Ok(o) => Ok(o),
        Err(_) => Err(ClientError::invalid_discovery("optional discovery string has wrong type")),
    }
}

fn parse_server_identity(value: &JsonValue) -> (r: Result<ServerIdentity, ClientError>)
    ensures
        match r {
            Ok(i) => identity_of(value@) == Ok::<IdentityModel, Seq<u8>>(i@),
            Err(e) => identity_of(value@) == Err::<IdentityModel, Seq<u8>>(e.message@) && e.kind
                == ClientErrorKind::InvalidDiscovery,
        },
{
    proof { reveal_strlit("name"); reveal_strlit("version"); reveal_strlit("title"); reveal_strlit("serverInfo.name is required"); reveal_strlit("serverInfo.version is required"); }
    let name = match get_str(value, ascii_bytes("name").as_slice()) {
        Some(n) => n,
        None => return Err(ClientError::invalid_discovery("serverInfo.name is required")),
    };
    let version = match get_str(value, ascii_bytes("version").as_slice()) {
        Some(n) => n,
        None => return Err(ClientError::invalid_discovery("serverInfo.version is required")),
    };
    let title = optional_string(value, ascii_bytes("title").as_slice())?;
    Ok(ServerIdentity { name, version, title })
}

/// The protocol versions this client can speak, newest first after the
/// latest: the legacy versions.
pub open spec fn legacy_versions() -> Seq<Seq<u8>> {
    seq![lit("2025-11-25"), lit("2025-06-18"), lit("2025-03-26")]
}

/// The version to speak with a server that supports `sv`: the latest if
/// it is there, else the first legacy version it supports.
pub open spec fn select_spec(sv: Seq<Seq<u8>>) -> Option<Seq<u8>> {
    if sv.contains(lit(LATEST_PROTOCOL_VERSION)) {
        Some(lit(LATEST_PROTOCOL_VERSION))
    } else if sv.contains(legacy_versions()[0]) {
        Some(legacy_versions()[0])
    } else if sv.contains(legacy_versions()[1]) {
        Some(legacy_versions()[1])
    } else if sv.contains(legacy_versions()[2]) {
        Some(legacy_versions()[2])
    } else {
        None
    }
}

fn contains_version(supported: &Vec<Vec<u8>>, v: &[u8]) -> (r: bool)
    ensures
        r == crate::mcp_config::strings_view(supported@).contains(v@),
{
    let ghost sv = crate::mcp_config::strings_view(supported@);
    let mut i: usize = 0;
    while i < supported.len()
        invariant
            0 <= i <= supported@.len(),
            sv == crate::mcp_config::strings_view(supported@),
            forall|k: int| 0 <= k < i ==> sv[k] != v@,
        decreases supported.len() - i,
    {
        if bytes_eq(supported[i].as_slice(), v) {
            assert(sv[i as int] == v@);
            return true;
        }
        i = i + 1;
    }
    false
}

fn select_protocol(supported: &Vec<Vec<u8>>) -> (r: Option<Vec<u8>>)
    ensures
        sopt(r) == select_spec(crate::mcp_config::strings_view(supported@)),
{
    proof { reveal_strlit("2026-07-28"); reveal_strlit("2025-11-25"); reveal_strlit("2025-06-18"); reveal_strlit("2025-03-26"); }
    let latest = ascii_bytes(LATEST_PROTOCOL_VERSION);
    if contains_version(supported, latest.as_slice()) {
        return Some(latest);
    }
    let a = ascii_bytes("2025-11-25");
    if contains_version(supported, a.as_slice()) {
        return Some(a);
    }
    let b = ascii_bytes("2025-06-18");
    if contains_version(supported, b.as_slice()) {
        return Some(b);
    }
    let c = ascii_bytes("2025-03-26");
    if contains_version(supported, c.as_slice()) {
        return Some(c);
    }
    None
}

/// What a server reported about itself in discovery.
#[derive(Debug)]
pub struct Discovery {
    pub supported_versions: Vec<Vec<u8>>,
    pub selected_version: Vec<u8>,
    pub capabilities: JsonValue,
    pub identity: Option<ServerIdentity>,
    pub instructions: Option<Vec<u8>>,
    pub ttl_ms: Option<u64>,
}

/// Model of a discovery.
pub struct DiscoveryModel {
    pub supported_versions: Seq<Seq<u8>>,
    pub selected_version: Seq<u8>,
    pub capabilities: JModel,
    pub identity: Option<IdentityModel>,
    pub instructions: Option<Seq<u8>>,
    pub ttl_ms: Option<u64>,
}

/// The strings of a list of values, when all are strings.
pub open spec fn all_strings(vs: Seq<JModel>) -> Option<Seq<Seq<u8>>>
    decreases vs.len(),
{
    if vs.len() == 0 {
        Some(seq![])
    } else {
        match (all_strings(vs.drop_last()), vs.last()) {
            (Some(xs), JModel::Str(s)) => Some(xs.push(s)),
            _ => None,
        }
    }
}

/// The `serverInfo` under a discovery's `_meta`.
pub open spec fn server_info(result: JModel) -> Option<JModel> {
    match jget(result, lit("_meta")) {
        Some(m) => jget(m, lit("io.modelcontextprotocol/serverInfo")),
        None => None,
    }
}

/// What a discovery result reads as, or the kind and message of the
/// failure that refuses it.
pub open spec fn discovery_of(result: JModel) -> Result<DiscoveryModel, (ClientErrorKind, Seq<u8>)> {
    match jget(result, lit("supportedVersions")) {
        Some(JModel::Array(vs)) => match all_strings(vs) {
            None => Err((ClientErrorKind::InvalidDiscovery, lit("supportedVersions must contain strings"))),
            Some(sv) => match select_spec(sv) {
                None => Err((ClientErrorKind::UnsupportedProtocol, lit("server does not support a known MCP protocol version"))),
                Some(selected) => {
                    let caps = match jget(result, lit("capabilities")) {
                        Some(c) => c,
                        None => JModel::Object(seq![]),
                    };
                    if !(caps is Object) {
                        Err((ClientErrorKind::InvalidDiscovery, lit("server capabilities must be an object")))
                    } else {
                        let identity: Result<Option<IdentityModel>, Seq<u8>> = match server_info(result) {
                            None => Ok(None),
                            Some(i) => match identity_of(i) {
                                Ok(x) => Ok(Some(x)),
                                Err(e) => Err(e),
                            },
                        };
                        match identity {
                            Err(e) => Err((ClientErrorKind::InvalidDiscovery, e)),
                            Ok(identity) => match opt_str_at(result, lit("instructions")) {
                                Err(_) => Err((ClientErrorKind::InvalidDiscovery, discovery_type_msg())),
                                Ok(instructions) => Ok(
                                    DiscoveryModel {
                                        supported_versions: sv,
                                        selected_version: selected,
                                        capabilities: caps,
                                        identity,
                                        instructions,
                                        ttl_ms: page_ttl(result),
                                    },
                                ),
                            },
                        }
                    }
                },
            },
        },
        _ => Err((ClientErrorKind::InvalidDiscovery, lit("supportedVersions is required"))),
    }
}

pub open spec fn identity_opt(i: Option<ServerIdentity>) -> Option<IdentityModel> {
    match i {
        Some(x) => Some(x@),
        None => None,
    }
}

impl Discovery {
    pub open spec fn view(&self) -> DiscoveryModel {
        DiscoveryModel {
            supported_versions: crate::mcp_config::strings_view(self.supported_versions@),
            selected_version: self.selected_version@,
            capabilities: self.capabilities@,
            identity: identity_opt(self.identity),
            instructions: sopt(self.instructions),
            ttl_ms: self.ttl_ms,
        }
    }

    pub fn from_result(result: &JsonValue) -> (r: Result<Discovery, ClientError>)
        ensures
            match r {
                Ok(d) => discovery_of(result@) == Ok::<DiscoveryModel, (ClientErrorKind, Seq<u8>)>(d@),
                Err(e) => discovery_of(result@) == Err::<DiscoveryModel, (ClientErrorKind, Seq<u8>)>((e.kind, e.message@)),
            },
    {
        proof {
            reveal_strlit("supportedVersions"); reveal_strlit("capabilities"); reveal_strlit("_meta");
            reveal_strlit("io.modelcontextprotocol/serverInfo"); reveal_strlit("instructions"); reveal_strlit("ttlMs");
            reveal_strlit("supportedVersions is required"); reveal_strlit("supportedVersions must contain strings");
            reveal_strlit("server does not support a known MCP protocol version");
            reveal_strlit("server capabilities must be an object");
        }
        let vs = match result.get(ascii_bytes("supportedVersions").as_slice()) {
            Some(JsonValue::Array(vs)) => vs,
            _ => return Err(ClientError::invalid_discovery("supportedVersions is required")),
        };
        let mut supported: Vec<Vec<u8>> = Vec::new();
        let mut i: usize = 0;
        assert(vs@.subrange(0, 0) =~= Seq::<JsonValue>::empty());
        assert(crate::json::jviews(vs@.subrange(0, 0)) =~= seq![]);
        assert(crate::mcp_config::strings_view(supported@) =~= seq![]);
        while i < vs.len()
            invariant
                0 <= i <= vs@.len(),
                all_strings(crate::json::jviews(vs@.subrange(0, i as int))) == Some(crate::mcp_config::strings_view(supported@)),
                jget(result@, lit("supportedVersions")) == Some(JModel::Array(crate::json::jviews(vs@))),
            decreases vs.len() - i,
        {
            let ghost cur = crate::json::jviews(vs@.subrange(0, i + 1));
            proof {
                assert(vs@.subrange(0, i + 1).drop_last() =~= vs@.subrange(0, i as int));
                assert(cur.drop_last() =~= crate::json::jviews(vs@.subrange(0, i as int)));
                assert(cur.last() == vs@[i as int]@);
            }
            match vs[i].as_str() {
                Some(s) => {
                    let c = to_vec(s);
                    let ghost before = supported@;
                    supported.push(c);
                    assert(crate::mcp_config::strings_view(supported@) =~= crate::mcp_config::strings_view(before).push(c@));
                },
                None => {
                    proof {
                        reveal_strlit("supportedVersions must contain strings");
                        crate::json::lemma_jviews_len(vs@);
                        assert(crate::json::jviews(vs@).subrange(0, i + 1) =~= cur) by {
                            crate::json::lemma_jviews_len(vs@.subrange(0, i + 1));
                            assert forall|k: int| 0 <= k < i + 1 implies crate::json::jviews(vs@)[k] == cur[k] by {
                                crate::json::lemma_jviews_index(vs@, k);
                                crate::json::lemma_jviews_index(vs@.subrange(0, i + 1), k);
                            }
                        }
                        lemma_strings_none(crate::json::jviews(vs@), i + 1);
                    }
                    return Err(ClientError::invalid_discovery("supportedVersions must contain strings"));
                },
            }
            i = i + 1;
        }
        assert(vs@.subrange(0, i as int) =~= vs@);
        let selected_version = match select_protocol(&supported) {
            Some(v) => v,
            None => return Err(ClientError::new(
                ClientErrorKind::UnsupportedProtocol,
                "server does not support a known MCP protocol version",
            )),
        };
        let capabilities = match result.get(ascii_bytes("capabilities").as_slice()) {
            Some(c) => c.duplicate(),
            None => empty_object(),
        };
        if capabilities.as_object().is_none() {
            return Err(ClientError::invalid_discovery("server capabilities must be an object"));
        }
        let info = match result.get(ascii_bytes("_meta").as_slice()) {
            Some(m) => m.get(ascii_bytes("io.modelcontextprotocol/serverInfo").as_slice()),
            None => None,
        };
        let identity = match info {
            Some(i) => Some(parse_server_identity(i)?),
            None => None,
        };
        let instructions = optional_string(result, ascii_bytes("instructions").as_slice())?;
        let ttl_ms = match result.get(ascii_bytes("ttlMs").as_slice()) {
            Some(JsonValue::Number(t)) => number_ttl(t.as_slice()),
            _ => None,
        };
        Ok(Discovery { supported_versions: supported, selected_version, capabilities, identity, instructions, ttl_ms })
    }

    /// Whether the server declared a capability.
    pub fn supports(&self, capability: &[u8]) -> (r: bool)
        ensures
            r == (jget(self.capabilities@, capability@) is Some),
    {
        self.capabilities.get(capability).is_some()
    }

    pub fn duplicate(&self) -> (r: Discovery)
        ensures
            r@ == self@,
    {
        Discovery {
            supported_versions: crate::mcp_config::copy_strings(&self.supported_versions),
            selected_version: to_vec(self.selected_version.as_slice()),
            capabilities: self.capabilities.duplicate(),
            identity: match &self.identity {
                Some(i) => Some(ServerIdentity { name: to_vec(i.name.as_slice()), version: to_vec(i.version.as_slice()), title: crate::json::copy_opt(&i.title) }),
                None => None,
            },
            instructions: crate::json::copy_opt(&self.instructions),
            ttl_ms: self.ttl_ms,
        }
    }
}

proof fn lemma_strings_none(vs: Seq<JModel>, k: int)
    requires
        0 <= k <= vs.len(),
        all_strings(vs.subrange(0, k)) is None,
    ensures
        all_strings(vs) is None,
    decreases vs.len() - k,
{
    if k < vs.len() {
        assert(vs.subrange(0, k + 1).drop_last() =~= vs.subrange(0, k));
        lemma_strings_none(vs, k + 1);
    } else {
        assert(vs.subrange(0, k) =~= vs);
    }
}


/// Model of a client.
pub struct ClientModel {
    pub server: ServerModel,
    pub status: ClientStatus,
    pub discovery: Option<DiscoveryModel>,
    pub sequence: u64,
}

pub open spec fn discovery_opt(d: Option<Discovery>) -> Option<DiscoveryModel> {
    match d {
        Some(x) => Some(x@),
        None => None,
    }
}

/// `a + k`, stopping at the largest `u64`.
pub open spec fn sat_add(a: u64, k: int) -> u64 {
    if a + k > u64::MAX {
        u64::MAX
    } else {
        (a + k) as u64
    }
}

/// The text of a request id: the server id, `-`, and a sequence number.
pub open spec fn id_text(server_id: Seq<u8>, n: u64) -> Seq<u8> {
    server_id + lit("-") + dec(n as nat)
}

/// The protocol version a client speaks: the one selected in discovery,
/// else the latest.
pub open spec fn client_version(d: Option<DiscoveryModel>) -> Seq<u8> {
    match d {
        Some(x) => x.selected_version,
        None => lit(LATEST_PROTOCOL_VERSION),
    }
}

/// The `_meta` a client sends.
pub open spec fn client_meta(d: Option<DiscoveryModel>) -> JModel {
    JModel::Object(
        crate::json::jinsert(
            crate::json::jinsert(
                crate::json::jinsert(seq![], crate::mcp_wire::meta_key_version(), JModel::Str(client_version(d))),
                crate::mcp_wire::meta_key_client(),
                crate::mcp_wire::identity_json(lit("genos"), lit(CLIENT_VERSION)),
            ),
            crate::mcp_wire::meta_key_capabilities(),
            JModel::Object(seq![]),
        ),
    )
}

/// Whether a client's discovery declared a capability.
pub open spec fn declared(d: Option<DiscoveryModel>, cap: Seq<u8>) -> bool {
    match d {
        Some(x) => jget(x.capabilities, cap) is Some,
        None => false,
    }
}

/// The listings a ready client asks for: each kind the server allows and
/// declared, in the order tools, resources, prompts.
pub open spec fn list_methods(c: ClientModel) -> Seq<Seq<u8>> {
    (if c.server.allow_tools && declared(c.discovery, lit("tools")) {
        seq![lit(crate::method::TOOLS_LIST)]
    } else {
        seq![]
    }) + (if c.server.allow_resources && declared(c.discovery, lit("resources")) {
        seq![lit(crate::method::RESOURCES_LIST)]
    } else {
        seq![]
    }) + (if c.server.allow_prompts && declared(c.discovery, lit("prompts")) {
        seq![lit(crate::method::PROMPTS_LIST)]
    } else {
        seq![]
    })
}

/// One client per server: its configuration, status and discovery.
#[derive(Debug)]
pub struct ClientState {
    pub server: ServerConfig,
    pub status: ClientStatus,
    pub discovery: Option<Discovery>,
    /// The number of requests made so far.
    pub request_sequence: u64,
}

/// A fresh client for a server: configured, or disabled when the server
/// is.
pub open spec fn initial_client(s: ServerModel) -> ClientModel {
    ClientModel {
        server: s,
        status: if s.enabled {
            ClientStatus::Configured
        } else {
            ClientStatus::Disabled
        },
        discovery: None,
        sequence: 0,
    }
}

impl ClientState {
    /// The number of requests made so far.
    pub open spec fn sequence(&self) -> u64 {
        self.request_sequence
    }

    pub open spec fn view(&self) -> ClientModel {
        ClientModel {
            server: self.server@,
            status: self.status,
            discovery: discovery_opt(self.discovery),
            sequence: self.sequence(),
        }
    }

    pub fn new(server: ServerConfig) -> (r: ClientState)
        ensures
            r@ == initial_client(server@),
    {
        let status = if server.enabled {
            ClientStatus::Configured
        } else {
            ClientStatus::Disabled
        };
        ClientState { server, status, discovery: None, request_sequence: 0 }
    }

    pub fn duplicate(&self) -> (r: ClientState)
        ensures
            r@ == self@,
    {
        ClientState {
            server: self.server.duplicate(),
            status: self.status,
            discovery: match &self.discovery {
                Some(d) => Some(d.duplicate()),
                None => None,
            },
            request_sequence: self.request_sequence,
        }
    }

    /// The metadata this client sends.
    pub fn metadata(&self) -> (r: RequestMetadata)
        ensures
            metadata_json(r) == client_meta(discovery_opt(self.discovery)),
            r.protocol_version@ == client_version(discovery_opt(self.discovery)),
    {
        let mut metadata = RequestMetadata::modern(ClientIdentity::genos());
        match &self.discovery {
            Some(d) => {
                metadata.protocol_version = to_vec(d.selected_version.as_slice());
            },
            None => {},
        }
        metadata
    }

    /// The next request id: `<server id>-<n>` for the next sequence
    /// number.
    pub fn next_id(&mut self) -> (r: RequestId)
        ensures
            final(self).sequence() == sat_add(old(self).sequence(), 1),
            final(self).server == old(self).server,
            final(self).status == old(self).status,
            final(self).discovery == old(self).discovery,
            r@ == RidModel::Text(id_text(old(self).server.id@, final(self).sequence())),
    {
        self.request_sequence = self.request_sequence.saturating_add(1);
        let mut t = to_vec(self.server.id.as_slice());
        t.push(45);
        push_dec(&mut t, self.request_sequence);
        proof {
            reveal_strlit("-");
            assert(t@ =~= id_text(old(self).server.id@, self.request_sequence));
        }
        RequestId::Text(t)
    }

    /// A discovery request; refused for a disabled client.
    pub fn discover_request(&mut self) -> (r: Result<RpcRequest, ClientError>)
        ensures
            match r {
                Ok(q) => {
                    &&& old(self).status != ClientStatus::Disabled
                    &&& final(self)@ == (ClientModel { status: ClientStatus::Discovering, sequence: sat_add(old(self).sequence(), 1), ..old(self)@ })
                    &&& q.id@ == RidModel::Text(id_text(old(self).server.id@, final(self).sequence()))
                    &&& q.method@ == lit(crate::method::SERVER_DISCOVER)
                    &&& q.params@ == with_meta(JModel::Object(seq![]), client_meta(discovery_opt(old(self).discovery)))
                },
                Err(e) => old(self).status == ClientStatus::Disabled && e.kind == ClientErrorKind::Disabled
                    && e.message@ == lit("MCP server is disabled") && final(self)@ == old(self)@,
            },
    {
        if self.status == ClientStatus::Disabled {
            proof { reveal_strlit("MCP server is disabled"); }
            return Err(ClientError::new(ClientErrorKind::Disabled, "MCP server is disabled"));
        }
        self.status = ClientStatus::Discovering;
        let id = self.next_id();
        let md = self.metadata();
        Ok(RpcRequest::discover(id, &md))
    }

    /// Takes in a discovery response: the client becomes ready when the
    /// latest protocol was selected, else it needs a legacy adapter. A
    /// refused discovery leaves the client as it was.
    pub fn accept_discovery(&mut self, response: &RpcResponse) -> (r: Result<(), ClientError>)
        ensures
            match r {
                Ok(_) => response.result matches Some(res) && discovery_of(res@) matches Ok(d) && final(self)@
                    == (ClientModel {
                    status: if d.selected_version == lit(LATEST_PROTOCOL_VERSION) {
                        ClientStatus::Ready
                    } else {
                        ClientStatus::LegacyAdapterRequired
                    },
                    discovery: Some(d),
                    ..old(self)@
                }),
                Err(e) => final(self)@ == old(self)@ && match response.result {
                    None => e.kind == ClientErrorKind::InvalidDiscovery && e.message@ == (match response.error {
                        Some(x) => x.message@,
                        None => lit("discovery returned no result"),
                    }),
                    Some(res) => discovery_of(res@) == Err::<DiscoveryModel, (ClientErrorKind, Seq<u8>)>((e.kind, e.message@)),
                },
            },
    {
        let result = match &response.result {
            Some(r) => r,
            None => {
                proof { reveal_strlit("discovery returned no result"); }
                let message = match &response.error {
                    Some(e) => to_vec(e.message.as_slice()),
                    None => ascii_bytes("discovery returned no result"),
                };
                return Err(ClientError { kind: ClientErrorKind::InvalidDiscovery, message });
            },
        };
        let discovery = Discovery::from_result(result)?;
        proof { reveal_strlit("2026-07-28"); }
        let latest = ascii_bytes(LATEST_PROTOCOL_VERSION);
        self.status = if bytes_eq(discovery.selected_version.as_slice(), latest.as_slice()) {
            ClientStatus::Ready
        } else {
            ClientStatus::LegacyAdapterRequired
        };
        self.discovery = Some(discovery);
        Ok(())
    }

    fn supports(&self, capability: &[u8]) -> (r: bool)
        ensures
            r == declared(discovery_opt(self.discovery), capability@),
    {
        match &self.discovery {
            Some(d) => d.supports(capability),
            None => false,
        }
    }

    /// The listing requests of a ready client.
    pub fn list_requests(&mut self) -> (r: Result<Vec<RpcRequest>, ClientError>)
        ensures
            match r {
                Ok(qs) => {
                    &&& old(self).status == ClientStatus::Ready
                    &&& qs@.len() == list_methods(old(self)@).len()
                    &&& final(self)@ == (ClientModel { sequence: sat_add(old(self).sequence(), qs@.len() as int), ..old(self)@ })
                    &&& forall|k: int| 0 <= k < qs@.len() ==> {
                        &&& (#[trigger] qs@[k]).method@ == list_methods(old(self)@)[k]
                        &&& qs@[k].id@ == RidModel::Text(id_text(old(self).server.id@, sat_add(old(self).sequence(), k + 1)))
                        &&& qs@[k].params@ == with_meta(JModel::Object(seq![]), client_meta(discovery_opt(old(self).discovery)))
                    }
                },
                Err(e) => old(self).status != ClientStatus::Ready && e.kind == ClientErrorKind::NotReady
                    && e.message@ == lit("MCP client must complete modern discovery first") && final(self)@ == old(self)@,
            },
    {
        if self.status != ClientStatus::Ready {
            proof { reveal_strlit("MCP client must complete modern discovery first"); }
            return Err(ClientError::new(ClientErrorKind::NotReady, "MCP client must complete modern discovery first"));
        }
        proof { reveal_strlit("tools"); reveal_strlit("resources"); reveal_strlit("prompts"); reveal_strlit("tools/list"); reveal_strlit("resources/list"); reveal_strlit("prompts/list"); }
        let list_tools = self.server.allow_tools && self.supports(ascii_bytes("tools").as_slice());
        let list_resources = self.server.allow_resources && self.supports(ascii_bytes("resources").as_slice());
        let list_prompts = self.server.allow_prompts && self.supports(ascii_bytes("prompts").as_slice());
        let metadata = self.metadata();
        let ghost methods = list_methods(old(self)@);
        let ghost s0 = old(self).sequence();
        let mut requests: Vec<RpcRequest> = Vec::new();
        let mut k: usize = 0;
        while k < 3
            invariant
                0 <= k <= 3,
                requests@.len() <= k,
                self.server == old(self).server,
                self.status == old(self).status,
                self.discovery == old(self).discovery,
                methods == list_methods(old(self)@),
                list_tools == (old(self).server.allow_tools && declared(discovery_opt(old(self).discovery), lit("tools"))),
                list_resources == (old(self).server.allow_resources && declared(discovery_opt(old(self).discovery), lit("resources"))),
                list_prompts == (old(self).server.allow_prompts && declared(discovery_opt(old(self).discovery), lit("prompts"))),
                metadata_json(metadata) == client_meta(discovery_opt(old(self).discovery)),
                requests@.len() == (if k >= 1 && list_tools { 1int } else { 0 }) + (if k >= 2 && list_resources { 1int } else { 0 }) + (if k >= 3 && list_prompts { 1int } else { 0 }),
                self.sequence() == sat_add(s0, requests@.len() as int),
                forall|j: int| 0 <= j < requests@.len() ==> {
                    &&& (#[trigger] requests@[j]).method@ == methods[j]
                    &&& requests@[j].id@ == RidModel::Text(id_text(old(self).server.id@, sat_add(s0, j + 1)))
                    &&& requests@[j].params@ == with_meta(JModel::Object(seq![]), client_meta(discovery_opt(old(self).discovery)))
                },
            decreases 3 - k,
        {
            proof { reveal_strlit("tools/list"); reveal_strlit("resources/list"); reveal_strlit("prompts/list"); }
            let wanted = if k == 0 {
                list_tools
            } else if k == 1 {
                list_resources
            } else {
                list_prompts
            };
            if wanted {
                let method = if k == 0 {
                    ascii_bytes(crate::method::TOOLS_LIST)
                } else if k == 1 {
                    ascii_bytes(crate::method::RESOURCES_LIST)
                } else {
                    ascii_bytes(crate::method::PROMPTS_LIST)
                };
                let ghost n0 = requests@.len();
                let id = self.next_id();
                let q = RpcRequest::new(id, method.as_slice(), empty_object(), &metadata);
                requests.push(q);
                proof {
                    assert(self.sequence() == sat_add(s0, (n0 + 1) as int));
                    assert(methods[n0 as int] == method@);
                }
            }
            k = k + 1;
        }
        Ok(requests)
    }

    /// A request of a ready client.
    pub fn request(&mut self, method: &[u8], params: JsonValue) -> (r: Result<RpcRequest, ClientError>)
        ensures
            match r {
                Ok(q) => {
                    &&& old(self).status == ClientStatus::Ready
                    &&& final(self)@ == (ClientModel { sequence: sat_add(old(self).sequence(), 1), ..old(self)@ })
                    &&& q.id@ == RidModel::Text(id_text(old(self).server.id@, final(self).sequence()))
                    &&& q.method@ == method@
                    &&& q.params@ == with_meta(params@, client_meta(discovery_opt(old(self).discovery)))
                },
                Err(e) => old(self).status != ClientStatus::Ready && e.kind == ClientErrorKind::NotReady
                    && e.message@ == lit("MCP client is not ready") && final(self)@ == old(self)@,
            },
    {
        if self.status != ClientStatus::Ready {
            proof { reveal_strlit("MCP client is not ready"); }
            return Err(ClientError::new(ClientErrorKind::NotReady, "MCP client is not ready"));
        }
        let id = self.next_id();
        let md = self.metadata();
        Ok(RpcRequest::new(id, method, params, &md))
    }
}

/// The clients of a configuration: one per server id (a later server with
/// the same id replaces an earlier one), in id order.
pub open spec fn clients_from(servers: Seq<ServerModel>) -> Seq<(Seq<u8>, ClientModel)>
    decreases servers.len(),
{
    if servers.len() == 0 {
        seq![]
    } else {
        sinsert(clients_from(servers.drop_last()), servers.last().id, initial_client(servers.last()))
    }
}

/// Every server's client and the merged catalog.
pub struct ClientManager {
    clients: Vec<(Vec<u8>, ClientState)>,
    catalog: Catalog,
}

impl ClientManager {
    /// Clients in server id order.
    pub closed spec fn clients(&self) -> Seq<(Seq<u8>, ClientModel)> {
        smap(pairs_view(self.clients@), |c: ClientState| c@)
    }

    /// The merged catalog.
    pub closed spec fn catalog_view(&self) -> Seq<(Seq<u8>, CatalogModel)> {
        self.catalog@
    }

    pub fn from_config(config: &McpConfig) -> (r: ClientManager)
        ensures
            r.clients() == clients_from(config@.servers),
            r.catalog_view() == Seq::<(Seq<u8>, CatalogModel)>::empty(),
    {
        let mut clients: Vec<(Vec<u8>, ClientState)> = Vec::new();
        let mut i: usize = 0;
        let ghost sv = config@.servers;
        assert(sv.subrange(0, 0) =~= Seq::<ServerModel>::empty());
        assert(smap(pairs_view(clients@), |c: ClientState| c@) =~= seq![]);
        while i < config.servers.len()
            invariant
                0 <= i <= config.servers@.len(),
                sv == config@.servers,
                sv.len() == config.servers@.len(),
                smap(pairs_view(clients@), |c: ClientState| c@) == clients_from(sv.subrange(0, i as int)),
            decreases config.servers.len() - i,
        {
            let server = config.servers[i].duplicate();
            let key = to_vec(server.id.as_slice());
            let state = ClientState::new(server);
            let ghost st = state;
            proof {
                lemma_smap_sinsert(pairs_view(clients@), key@, st, |c: ClientState| c@);
                assert(sv[i as int] == config.servers@[i as int]@);
                assert(sv.subrange(0, i + 1).drop_last() =~= sv.subrange(0, i as int));
            }
            sm_insert(&mut clients, key, state);
            i = i + 1;
        }
        assert(sv.subrange(0, i as int) =~= sv);
        ClientManager { clients, catalog: Catalog::new() }
    }

    /// A server's client.
    pub fn client(&self, server_id: &[u8]) -> (r: Option<&ClientState>)
        ensures
            match r {
                Some(c) => sget(self.clients(), server_id@) == Some(c@),
                None => sget(self.clients(), server_id@) is None,
            },
    {
        proof {
            lemma_smap_sremove(pairs_view(self.clients@), server_id@, |c: ClientState| c@);
        }
        sm_get(&self.clients, server_id)
    }

    /// A server's client, to change it in place.
    pub fn client_mut(&mut self, server_id: &[u8]) -> (r: Result<&mut ClientState, ClientError>)
        ensures
            match r {
                Ok(c) => sfind(old(self).clients(), server_id@) matches Some(i) && 0 <= i < old(self).clients().len()
                    && old(self).clients()[i] == (server_id@, (*c)@) && final(self).clients() == old(self).clients().update(i, (server_id@, (*final(c))@))
                    && final(self).catalog_view() == old(self).catalog_view(),
                Err(e) => sfind(old(self).clients(), server_id@) is None && e.kind == ClientErrorKind::UnknownServer
                    && e.message@ == lit("unknown MCP server") && final(self).clients() == old(self).clients()
                    && final(self).catalog_view() == old(self).catalog_view(),
            },
    {
        proof {
            lemma_sfind(pairs_view(self.clients@), server_id@);
            lemma_sfind_smap(pairs_view(self.clients@), server_id@, |c: ClientState| c@);
        }
        match sm_find(&self.clients, server_id) {
            Some(i) => {
                proof {
                    assert(pairs_view(self.clients@)[i as int].0 == server_id@);
                    assert(self.clients()[i as int] == (server_id@, self.clients@[i as int].1@));
                }
                let r = &mut self.clients[i].1;
                proof {
                    assert forall|c: ClientState| true implies smap(pairs_view(old(self).clients@.update(i as int, (old(self).clients@[i as int].0, c))), |c: ClientState| c@)
                        =~= old(self).clients().update(i as int, (server_id@, c@)) by {}
                }
                Ok(r)
            },
            None => {
                proof { reveal_strlit("unknown MCP server"); }
                Err(ClientError::new(ClientErrorKind::UnknownServer, "unknown MCP server"))
            },
        }
    }

    pub fn catalog(&self) -> (r: &Catalog)
        ensures
            r@ == self.catalog_view(),
    {
        &self.catalog
    }

    pub fn catalog_mut(&mut self) -> (r: &mut Catalog)
        ensures
            (*r)@ == old(self).catalog_view(),
            final(self).catalog_view() == (*final(r))@,
            final(self).clients() == old(self).clients(),
    {
        &mut self.catalog
    }

    /// The clients with their server ids, in id order.
    pub fn iter(&self) -> (r: Vec<(&[u8], &ClientState)>)
        ensures
            r@.len() == self.clients().len(),
            forall|k: int| 0 <= k < r@.len() ==> ((#[trigger] r@[k]).0@, r@[k].1@) == self.clients()[k],
    {
        let mut out: Vec<(&[u8], &ClientState)> = Vec::new();
        let mut i: usize = 0;
        while i < self.clients.len()
            invariant
                0 <= i <= self.clients@.len(),
                out@.len() == i,
                self.clients().len() == self.clients@.len(),
                forall|k: int| 0 <= k < i ==> ((#[trigger] out@[k]).0@, out@[k].1@) == self.clients()[k],
            decreases self.clients.len() - i,
        {
            out.push((self.clients[i].0.as_slice(), &self.clients[i].1));
            i = i + 1;
        }
        out
    }

    pub fn len(&self) -> (r: usize)
        ensures
            r == self.clients().len(),
    {
        self.clients.len()
    }

    pub fn is_empty(&self) -> (r: bool)
        ensures
            r == (self.clients().len() == 0),
    {
        self.clients.len() == 0
    }
}

proof fn lemma_sfind_smap<V, W>(s: Seq<(Seq<u8>, V)>, k: Seq<u8>, f: spec_fn(V) -> W)
    ensures
        sfind(smap(s, f), k) == sfind(s, k),
        smap(s, f).len() == s.len(),
    decreases s.len(),
{
    if s.len() > 0 {
        assert(smap(s, f).drop_first() =~= smap(s.drop_first(), f));
        lemma_sfind_smap(s.drop_first(), k, f);
    }
}

} // verus!
