//! Provider-neutral MCP endpoint configuration.
//!
//! The parser reads a small, auditable TOML subset: a `[defaults]` table and
//! any number of `[[servers]]` tables. Secrets are never accepted inline:
//! authentication always names a credential source (`scheme:locator`).
//!
//! Every executable function is specified against a model: `spec_parse_config`
//! describes the whole parse as a fold of `spec_step` over the lines.

use vstd::prelude::*;

use crate::web::{utrim, utrim_bytes};
use crate::text::{
    all_digits, ascii_bytes, bytes_eq, digit_run, digits_value, find, find_byte, is_digit, is_utf8,
    lemma_digit_run, lemma_digits_monotone, lemma_find_from, lemma_lines_len, lines, lit, push_all,
    split_bytes, split_first_line, split_on, to_vec,
};

verus! {

/// How an MCP server is reached.
#[derive(Debug, Clone, PartialEq, Eq)]
pub enum TransportKind {
    StreamableHttp,
    StdioBridge,
    Custom(Vec<u8>),
}

/// Mathematical model of a [`TransportKind`].
#[verifier::ext_equal]
pub enum TransportModel {
    StreamableHttp,
    StdioBridge,
    Custom(Seq<u8>),
}

impl View for TransportKind {
    type V = TransportModel;

    open spec fn view(&self) -> TransportModel {
        match self {
            TransportKind::StreamableHttp => TransportModel::StreamableHttp,
            TransportKind::StdioBridge => TransportModel::StdioBridge,
            TransportKind::Custom(s) => TransportModel::Custom(s@),
        }
    }
}

/// The transport named by a configuration value; unknown names are kept.
pub open spec fn spec_transport(value: Seq<u8>) -> TransportModel {
    if value == lit("streamable_http") {
        TransportModel::StreamableHttp
    } else if value == lit("stdio_bridge") {
        TransportModel::StdioBridge
    } else {
        TransportModel::Custom(value)
    }
}

impl TransportKind {
    /// Reads a transport name.
    pub fn parse(value: &[u8]) -> (r: Self)
        ensures
            r@ == spec_transport(value@),
    {
        proof { reveal_strlit("streamable_http"); }
        let http = ascii_bytes("streamable_http");
        if bytes_eq(value, http.as_slice()) {
            return TransportKind::StreamableHttp;
        }
        proof { reveal_strlit("stdio_bridge"); }
        let stdio = ascii_bytes("stdio_bridge");
        if bytes_eq(value, stdio.as_slice()) {
            return TransportKind::StdioBridge;
        }
        TransportKind::Custom(to_vec(value))
    }
}

/// How far a server's results are trusted.
#[derive(Debug, Clone, Copy, PartialEq, Eq, Structural)]
pub enum TrustLevel {
    Untrusted,
    ReadOnly,
    Trusted,
}

/// The trust level named by a configuration value.
pub open spec fn spec_trust(value: Seq<u8>) -> Option<TrustLevel> {
    if value == lit("untrusted") {
        Some(TrustLevel::Untrusted)
    } else if value == lit("read_only") {
        Some(TrustLevel::ReadOnly)
    } else if value == lit("trusted") {
        Some(TrustLevel::Trusted)
    } else {
        None
    }
}

impl TrustLevel {
    /// Reads a trust level name.
    pub fn parse(value: &[u8]) -> (r: Option<Self>)
        ensures
            r == spec_trust(value@),
    {
        proof { reveal_strlit("untrusted"); }
        let a = ascii_bytes("untrusted");
        if bytes_eq(value, a.as_slice()) {
            return Some(TrustLevel::Untrusted);
        }
        proof { reveal_strlit("read_only"); }
        let b = ascii_bytes("read_only");
        if bytes_eq(value, b.as_slice()) {
            return Some(TrustLevel::ReadOnly);
        }
        proof { reveal_strlit("trusted"); }
        let c = ascii_bytes("trusted");
        if bytes_eq(value, c.as_slice()) {
            return Some(TrustLevel::Trusted);
        }
        None
    }
}

/// Where a credential is looked up.
#[derive(Debug, Clone, Copy, PartialEq, Eq, Structural)]
pub enum CredentialScheme {
    Environment,
    File,
    OAuthProfile,
    FirmwareVariable,
}

/// A reference to a secret held elsewhere: never the secret itself.
#[derive(Debug, Clone, PartialEq, Eq)]
pub enum CredentialRef {
    Environment(Vec<u8>),
    File(Vec<u8>),
    OAuthProfile(Vec<u8>),
    FirmwareVariable(Vec<u8>),
}

impl View for CredentialRef {
    type V = (CredentialScheme, Seq<u8>);

    open spec fn view(&self) -> (CredentialScheme, Seq<u8>) {
        match self {
            CredentialRef::Environment(l) => (CredentialScheme::Environment, l@),
            CredentialRef::File(l) => (CredentialScheme::File, l@),
            CredentialRef::OAuthProfile(l) => (CredentialScheme::OAuthProfile, l@),
            CredentialRef::FirmwareVariable(l) => (CredentialScheme::FirmwareVariable, l@),
        }
    }
}

/// A `scheme:locator` credential reference: the scheme is one of `env`,
/// `file`, `oauth`, `firmware`, and the locator is not blank.
pub open spec fn spec_credential(value: Seq<u8>) -> Result<(CredentialScheme, Seq<u8>), Seq<char>> {
    match find(value, 58) {
        None => Err("credential_ref must use scheme:value"@),
        Some(i) => {
            let scheme = value.subrange(0, i);
            let locator = value.subrange(i + 1, value.len() as int);
            if utrim(locator).len() == 0 {
                Err("credential_ref locator cannot be empty"@)
            } else if scheme == lit("env") {
                Ok((CredentialScheme::Environment, locator))
            } else if scheme == lit("file") {
                Ok((CredentialScheme::File, locator))
            } else if scheme == lit("oauth") {
                Ok((CredentialScheme::OAuthProfile, locator))
            } else if scheme == lit("firmware") {
                Ok((CredentialScheme::FirmwareVariable, locator))
            } else {
                Err("unsupported credential_ref scheme"@)
            }
        },
    }
}

/// The text shown for a credential instead of its locator.
pub open spec fn redacted_text(scheme: CredentialScheme) -> Seq<char> {
    match scheme {
        CredentialScheme::Environment => "env:[redacted]"@,
        CredentialScheme::File => "file:[redacted]"@,
        CredentialScheme::OAuthProfile => "oauth:[redacted]"@,
        CredentialScheme::FirmwareVariable => "firmware:[redacted]"@,
    }
}

impl CredentialRef {
    /// Parses `scheme:locator`; a bare value (an inline secret) is refused.
    pub fn parse(value: &[u8]) -> (r: Result<Self, &'static str>)
        ensures
            match r {
                Ok(c) => spec_credential(value@) == Ok::<(CredentialScheme, Seq<u8>), Seq<char>>(
                    c@,
                ),
                Err(m) => spec_credential(value@) == Err::<(CredentialScheme, Seq<u8>), Seq<char>>(
                    m@,
                ),
            },
    {
        proof {
            lemma_find_from(value@, 58, 0);
        }
        let i = match find_byte(value, 58) {
            Some(i) => i,
            None => return Err("credential_ref must use scheme:value"),
        };
        let n = value.len();
        let scheme = vstd::slice::slice_subrange(value, 0, i);
        let locator = vstd::slice::slice_subrange(value, i + 1, n);
        if utrim_bytes(locator).len() == 0 {
            return Err("credential_ref locator cannot be empty");
        }
        proof { reveal_strlit("env"); }
        let env = ascii_bytes("env");
        if bytes_eq(scheme, env.as_slice()) {
            return Ok(CredentialRef::Environment(to_vec(locator)));
        }
        proof { reveal_strlit("file"); }
        let file = ascii_bytes("file");
        if bytes_eq(scheme, file.as_slice()) {
            return Ok(CredentialRef::File(to_vec(locator)));
        }
        proof { reveal_strlit("oauth"); }
        let oauth = ascii_bytes("oauth");
        if bytes_eq(scheme, oauth.as_slice()) {
            return Ok(CredentialRef::OAuthProfile(to_vec(locator)));
        }
        proof { reveal_strlit("firmware"); }
        let firmware = ascii_bytes("firmware");
        if bytes_eq(scheme, firmware.as_slice()) {
            return Ok(CredentialRef::FirmwareVariable(to_vec(locator)));
        }
        Err("unsupported credential_ref scheme")
    }

    /// Safe representation for status screens and audit logs.
    pub fn redacted(&self) -> (r: String)
        ensures
            r@ == redacted_text(self@.0),
    {
        match self {
            CredentialRef::Environment(_) => "env:[redacted]".to_owned(),
            CredentialRef::File(_) => "file:[redacted]".to_owned(),
            CredentialRef::OAuthProfile(_) => "oauth:[redacted]".to_owned(),
            CredentialRef::FirmwareVariable(_) => "firmware:[redacted]".to_owned(),
        }
    }
}

/// How a client authenticates to a server.
#[derive(Debug, Clone, PartialEq, Eq)]
pub enum AuthConfig {
    NoAuth,
    Bearer { credential: CredentialRef },
    ApiKey { header: Vec<u8>, credential: CredentialRef },
    OAuth { profile: CredentialRef },
}

/// Mathematical model of an [`AuthConfig`].
#[verifier::ext_equal]
pub enum AuthModel {
    NoAuth,
    Bearer((CredentialScheme, Seq<u8>)),
    ApiKey(Seq<u8>, (CredentialScheme, Seq<u8>)),
    OAuth((CredentialScheme, Seq<u8>)),
}

impl View for AuthConfig {
    type V = AuthModel;

    open spec fn view(&self) -> AuthModel {
        match self {
            AuthConfig::NoAuth => AuthModel::NoAuth,
            AuthConfig::Bearer { credential } => AuthModel::Bearer(credential@),
            AuthConfig::ApiKey { header, credential } => AuthModel::ApiKey(header@, credential@),
            AuthConfig::OAuth { profile } => AuthModel::OAuth(profile@),
        }
    }
}

/// Settings that servers inherit unless they override them.
#[derive(Debug, Clone, Copy, PartialEq, Eq, Structural)]
pub struct McpDefaults {
    pub timeout_ms: u64,
    pub max_response_bytes: usize,
    pub require_approval: bool,
}

/// Built-in defaults: 15 s timeout, 1 MiB responses, approval required.
pub open spec fn default_defaults() -> McpDefaults {
    McpDefaults { timeout_ms: 15_000, max_response_bytes: 1_048_576, require_approval: true }
}

impl Default for McpDefaults {
    fn default() -> (r: Self)
        ensures
            r == default_defaults(),
    {
        McpDefaults { timeout_ms: 15_000, max_response_bytes: 1_048_576, require_approval: true }
    }
}

/// One configured MCP server.
#[derive(Debug, Clone, PartialEq, Eq)]
pub struct ServerConfig {
    pub id: Vec<u8>,
    pub transport: TransportKind,
    pub endpoint: Vec<u8>,
    pub enabled: bool,
    pub auth: AuthConfig,
    pub trust: TrustLevel,
    pub allow_tools: bool,
    pub allow_resources: bool,
    pub allow_prompts: bool,
    pub require_approval: bool,
    pub timeout_ms: u64,
    pub max_response_bytes: usize,
    pub allowed_tools: Vec<Vec<u8>>,
}

/// The contents of a list of byte strings.
pub open spec fn strings_view(v: Seq<Vec<u8>>) -> Seq<Seq<u8>> {
    v.map_values(|x: Vec<u8>| x@)
}

/// Mathematical model of a [`ServerConfig`].
#[verifier::ext_equal]
pub struct ServerModel {
    pub id: Seq<u8>,
    pub transport: TransportModel,
    pub endpoint: Seq<u8>,
    pub enabled: bool,
    pub auth: AuthModel,
    pub trust: TrustLevel,
    pub allow_tools: bool,
    pub allow_resources: bool,
    pub allow_prompts: bool,
    pub require_approval: bool,
    pub timeout_ms: u64,
    pub max_response_bytes: usize,
    pub allowed_tools: Seq<Seq<u8>>,
}

impl View for ServerConfig {
    type V = ServerModel;

    open spec fn view(&self) -> ServerModel {
        ServerModel {
            id: self.id@,
            transport: self.transport@,
            endpoint: self.endpoint@,
            enabled: self.enabled,
            auth: self.auth@,
            trust: self.trust,
            allow_tools: self.allow_tools,
            allow_resources: self.allow_resources,
            allow_prompts: self.allow_prompts,
            require_approval: self.require_approval,
            timeout_ms: self.timeout_ms,
            max_response_bytes: self.max_response_bytes,
            allowed_tools: strings_view(self.allowed_tools@),
        }
    }
}

/// The tool name under which a server's primitive is exposed.
pub open spec fn spec_namespaced(id: Seq<u8>, primitive: Seq<u8>) -> Seq<u8> {
    lit("mcp.") + id + seq![46u8] + primitive
}

impl ServerConfig {
    /// `mcp.<id>.<primitive>`.
    pub fn namespaced(&self, primitive: &[u8]) -> (r: Vec<u8>)
        ensures
            r@ == spec_namespaced(self.id@, primitive@),
    {
        proof { reveal_strlit("mcp."); }
        let mut name = ascii_bytes("mcp.");
        push_all(&mut name, self.id.as_slice());
        name.push(46);
        push_all(&mut name, primitive);
        name
    }

    /// Whether the server uses any authentication.
    pub fn is_authenticated(&self) -> (r: bool)
        ensures
            r == !(self.auth@ is NoAuth),
    {
        match self.auth {
            AuthConfig::NoAuth => false,
            _ => true,
        }
    }
}

/// A parsed MCP configuration.
#[derive(Debug, Clone, PartialEq, Eq)]
pub struct McpConfig {
    pub defaults: McpDefaults,
    pub servers: Vec<ServerConfig>,
}

/// Mathematical model of an [`McpConfig`].
#[verifier::ext_equal]
pub struct ConfigModel {
    pub defaults: McpDefaults,
    pub servers: Seq<ServerModel>,
}

/// The models of a list of servers.
pub open spec fn servers_view(v: Seq<ServerConfig>) -> Seq<ServerModel> {
    v.map_values(|s: ServerConfig| s@)
}

impl View for McpConfig {
    type V = ConfigModel;

    open spec fn view(&self) -> ConfigModel {
        ConfigModel { defaults: self.defaults, servers: servers_view(self.servers@) }
    }
}

/// A configuration error at a line (0 for the whole file).
#[derive(Debug, Clone, PartialEq, Eq)]
pub struct ConfigError {
    pub line: usize,
    pub message: String,
}

impl View for ConfigError {
    type V = (nat, Seq<char>);

    open spec fn view(&self) -> (nat, Seq<char>) {
        (self.line as nat, self.message@)
    }
}

impl ConfigError {
    pub fn new(line: usize, message: &str) -> (r: Self)
        ensures
            r.line == line,
            r.message@ == message@,
    {
        ConfigError { line, message: message.to_owned() }
    }
}

/// A quoted string value, quotes removed.
pub open spec fn spec_parse_string(value: Seq<u8>) -> Option<Seq<u8>> {
    let t = utrim(value);
    if t.len() >= 2 && t[0] == 34 && t[t.len() - 1] == 34 {
        Some(t.subrange(1, t.len() - 1))
    } else {
        None
    }
}

/// Reads a double-quoted string.
pub fn parse_string(value: &[u8], line: usize) -> (r: Result<Vec<u8>, ConfigError>)
    ensures
        match r {
            Ok(s) => spec_parse_string(value@) == Some(s@),
            Err(e) => spec_parse_string(value@) is None && e@ == (
                line as nat,
                "expected quoted string"@,
            ),
        },
{
    let t = utrim_bytes(value);
    let n = t.len();
    if n < 2 || t[0] != 34 || t[n - 1] != 34 {
        return Err(ConfigError::new(line, "expected quoted string"));
    }
    Ok(to_vec(vstd::slice::slice_subrange(t, 1, n - 1)))
}

/// `true` or `false`.
pub open spec fn spec_parse_bool(value: Seq<u8>) -> Option<bool> {
    let t = utrim(value);
    if t == lit("true") {
        Some(true)
    } else if t == lit("false") {
        Some(false)
    } else {
        None
    }
}

/// Reads a boolean.
pub fn parse_bool(value: &[u8], line: usize) -> (r: Result<bool, ConfigError>)
    ensures
        match r {
            Ok(b) => spec_parse_bool(value@) == Some(b),
            Err(e) => spec_parse_bool(value@) is None && e@ == (line as nat, "expected boolean"@),
        },
{
    let t = utrim_bytes(value);
    proof { reveal_strlit("true"); }
    let yes = ascii_bytes("true");
    if bytes_eq(t, yes.as_slice()) {
        return Ok(true);
    }
    proof { reveal_strlit("false"); }
    let no = ascii_bytes("false");
    if bytes_eq(t, no.as_slice()) {
        return Ok(false);
    }
    Err(ConfigError::new(line, "expected boolean"))
}

/// A decimal `u64`: digits only; the first problem met while reading left to
/// right decides the message (a non-digit, or a value that no longer fits).
pub open spec fn spec_parse_u64(value: Seq<u8>) -> Result<u64, Seq<char>> {
    let t = utrim(value);
    let k = digit_run(t, 0);
    if t.len() == 0 {
        Err("expected positive integer"@)
    } else if digits_value(t.subrange(0, k as int)) > u64::MAX {
        Err("integer overflow"@)
    } else if k < t.len() {
        Err("expected positive integer"@)
    } else {
        Ok(digits_value(t) as u64)
    }
}

/// Reads a decimal `u64`.
pub fn parse_u64(value: &[u8], line: usize) -> (r: Result<u64, ConfigError>)
    ensures
        match r {
            Ok(v) => spec_parse_u64(value@) == Ok::<u64, Seq<char>>(v),
            Err(e) => spec_parse_u64(value@) == Err::<u64, Seq<char>>(e@.1) && e@.0 == line,
        },
{
    let t = utrim_bytes(value);
    if t.len() == 0 {
        return Err(ConfigError::new(line, "expected positive integer"));
    }
    proof {
        lemma_digit_run(t@, 0);
    }
    let ghost k = digit_run(t@, 0);
    let mut acc: u64 = 0;
    let mut i: usize = 0;
    while i < t.len()
        invariant
            0 <= i <= t@.len(),
            t@ == utrim(value@),
            t@.len() > 0,
            i <= k,
            k == digit_run(t@, 0),
            k <= t@.len(),
            forall|j: int| 0 <= j < k ==> is_digit(#[trigger] t@[j]),
            k < t@.len() ==> !is_digit(t@[k as int]),
            acc == digits_value(t@.subrange(0, i as int)),
        decreases t.len() - i,
    {
        let b = t[i];
        if b < 48 || b > 57 {
            assert(i == k);
            return Err(ConfigError::new(line, "expected positive integer"));
        }
        assert(t@.subrange(0, i + 1).drop_last() =~= t@.subrange(0, i as int));
        let next: u128 = (acc as u128) * 10 + ((b - 48) as u128);
        if next > u64::MAX as u128 {
            proof {
                let u = t@.subrange(0, k as int);
                assert(all_digits(u));
                lemma_digits_monotone(u, i + 1);
                assert(u.subrange(0, i + 1) =~= t@.subrange(0, i + 1));
            }
            return Err(ConfigError::new(line, "integer overflow"));
        }
        acc = next as u64;
        i = i + 1;
    }
    assert(t@.subrange(0, t@.len() as int) =~= t@);
    Ok(acc)
}

/// A decimal `usize`.
pub open spec fn spec_parse_usize(value: Seq<u8>) -> Result<usize, Seq<char>> {
    match spec_parse_u64(value) {
        Err(m) => Err(m),
        Ok(v) => if v > usize::MAX {
            Err("integer overflow"@)
        } else {
            Ok(v as usize)
        },
    }
}

/// Reads a decimal `usize`.
pub fn parse_usize(value: &[u8], line: usize) -> (r: Result<usize, ConfigError>)
    ensures
        match r {
            Ok(v) => spec_parse_usize(value@) == Ok::<usize, Seq<char>>(v),
            Err(e) => spec_parse_usize(value@) == Err::<usize, Seq<char>>(e@.1) && e@.0 == line,
        },
{
    let v = match parse_u64(value, line) {
        Ok(v) => v,
        Err(e) => return Err(e),
    };
    if v > usize::MAX as u64 {
        return Err(ConfigError::new(line, "integer overflow"));
    }
    Ok(v as usize)
}

/// `[ "a", "b", ... ]`: each comma-separated element must be a quoted
/// string; an empty array is allowed.
pub open spec fn spec_parse_string_array(value: Seq<u8>) -> Result<Seq<Seq<u8>>, Seq<char>> {
    let t = utrim(value);
    if !(t.len() > 0 && t[0] == 91 && t[t.len() - 1] == 93) {
        Err("expected string array"@)
    } else {
        let inner = utrim(t.subrange(1, t.len() - 1));
        if inner.len() == 0 {
            Ok(seq![])
        } else {
            let parts = split_on(inner, 44);
            if forall|k: int|
                0 <= k < parts.len() ==> (#[trigger] spec_parse_string(utrim(parts[k]))) is Some {
                Ok(parts.map_values(|p: Seq<u8>| spec_parse_string(utrim(p)).unwrap()))
            } else {
                Err("expected quoted string"@)
            }
        }
    }
}

/// Reads an array of quoted strings.
pub fn parse_string_array(value: &[u8], line: usize) -> (r: Result<Vec<Vec<u8>>, ConfigError>)
    ensures
        match r {
            Ok(v) => spec_parse_string_array(value@) == Ok::<Seq<Seq<u8>>, Seq<char>>(
                strings_view(v@),
            ),
            Err(e) => spec_parse_string_array(value@) == Err::<Seq<Seq<u8>>, Seq<char>>(e@.1)
                && e@.0 == line,
        },
{
    let t = utrim_bytes(value);
    let n = t.len();
    if !(n > 0 && t[0] == 91 && t[n - 1] == 93) {
        return Err(ConfigError::new(line, "expected string array"));
    }
    let inner = utrim_bytes(vstd::slice::slice_subrange(t, 1, n - 1));
    let mut out: Vec<Vec<u8>> = Vec::new();
    if inner.len() == 0 {
        assert(strings_view(out@) =~= seq![]);
        return Ok(out);
    }
    let parts = split_bytes(inner, 44);
    let ghost ps = split_on(inner@, 44);
    let mut k: usize = 0;
    while k < parts.len()
        invariant
            0 <= k <= parts@.len(),
            t@ == utrim(value@),
            t@.len() > 0 && t@[0] == 91 && t@[t@.len() - 1] == 93,
            inner@ == utrim(t@.subrange(1, t@.len() - 1)),
            inner@.len() > 0,
            parts@.map_values(|x: &[u8]| x@) == ps,
            ps == split_on(inner@, 44),
            forall|j: int| 0 <= j < k ==> (#[trigger] spec_parse_string(utrim(ps[j]))) is Some,
            strings_view(out@) == ps.subrange(0, k as int).map_values(
                |p: Seq<u8>| spec_parse_string(utrim(p)).unwrap(),
            ),
        decreases parts.len() - k,
    {
        assert(parts@[k as int]@ == ps[k as int]);
        let s = match parse_string(utrim_bytes(parts[k]), line) {
            Ok(s) => s,
            Err(e) => {
                assert(!((spec_parse_string(utrim(ps[k as int]))) is Some));
                return Err(e);
            },
        };
        let ghost o0 = out@;
        out.push(s);
        k = k + 1;
        proof {
            assert(out@ =~= o0.push(s));
            assert(o0.len() == k - 1) by {
                assert(strings_view(o0).len() == o0.len());
            }
            assert forall|j: int| 0 <= j < k implies #[trigger] strings_view(out@)[j]
                == spec_parse_string(utrim(ps[j])).unwrap() by {
                if j < k - 1 {
                    assert(out@[j] == o0[j]);
                    assert(strings_view(o0)[j] == ps.subrange(0, k - 1).map_values(
                        |p: Seq<u8>| spec_parse_string(utrim(p)).unwrap(),
                    )[j]);
                }
            }
            assert(strings_view(out@) =~= ps.subrange(0, k as int).map_values(
                |p: Seq<u8>| spec_parse_string(utrim(p)).unwrap(),
            ));
        }
    }
    assert(ps.subrange(0, k as int) =~= ps);
    Ok(out)
}


/// A byte allowed in a server id: lower-case letter, digit, `-` or `_`.
pub open spec fn is_id_byte(b: u8) -> bool {
    (97 <= b && b <= 122) || (48 <= b && b <= 57) || b == 45 || b == 95
}

/// A non-empty server id made of allowed bytes.
pub open spec fn spec_valid_id(id: Seq<u8>) -> bool {
    id.len() > 0 && forall|i: int| 0 <= i < id.len() ==> is_id_byte(#[trigger] id[i])
}

/// Whether `value` is a valid server id.
pub fn valid_id(value: &[u8]) -> (r: bool)
    ensures
        r == spec_valid_id(value@),
{
    if value.len() == 0 {
        return false;
    }
    let mut i: usize = 0;
    while i < value.len()
        invariant
            0 <= i <= value@.len(),
            forall|k: int| 0 <= k < i ==> is_id_byte(#[trigger] value@[k]),
        decreases value.len() - i,
    {
        let b = value[i];
        if !((97 <= b && b <= 122) || (48 <= b && b <= 57) || b == 45 || b == 95) {
            assert(!is_id_byte(value@[i as int]));
            return false;
        }
        i = i + 1;
    }
    true
}

/// Which table of the file the parser is in.
#[derive(Debug, Clone, Copy, PartialEq, Eq, Structural)]
pub enum Section {
    Root,
    Defaults,
    Server,
}

/// A `[[servers]]` table being read, before it is checked.
pub struct PendingServer {
    pub id: Option<Vec<u8>>,
    pub transport: TransportKind,
    pub endpoint: Option<Vec<u8>>,
    pub enabled: bool,
    pub auth_kind: Vec<u8>,
    pub credential_ref: Option<Vec<u8>>,
    pub header_name: Vec<u8>,
    pub trust: TrustLevel,
    pub allow_tools: bool,
    pub allow_resources: bool,
    pub allow_prompts: bool,
    pub require_approval: bool,
    pub timeout_ms: u64,
    pub max_response_bytes: usize,
    pub allowed_tools: Vec<Vec<u8>>,
}

/// Mathematical model of a [`PendingServer`].
#[verifier::ext_equal]
pub struct PendingModel {
    pub id: Option<Seq<u8>>,
    pub transport: TransportModel,
    pub endpoint: Option<Seq<u8>>,
    pub enabled: bool,
    pub auth_kind: Seq<u8>,
    pub credential_ref: Option<Seq<u8>>,
    pub header_name: Seq<u8>,
    pub trust: TrustLevel,
    pub allow_tools: bool,
    pub allow_resources: bool,
    pub allow_prompts: bool,
    pub require_approval: bool,
    pub timeout_ms: u64,
    pub max_response_bytes: usize,
    pub allowed_tools: Seq<Seq<u8>>,
}

/// The contents of an optional byte string.
pub open spec fn opt_view(o: Option<Vec<u8>>) -> Option<Seq<u8>> {
    match o {
        Some(v) => Some(v@),
        None => None,
    }
}

impl View for PendingServer {
    type V = PendingModel;

    open spec fn view(&self) -> PendingModel {
        PendingModel {
            id: opt_view(self.id),
            transport: self.transport@,
            endpoint: opt_view(self.endpoint),
            enabled: self.enabled,
            auth_kind: self.auth_kind@,
            credential_ref: opt_view(self.credential_ref),
            header_name: self.header_name@,
            trust: self.trust,
            allow_tools: self.allow_tools,
            allow_resources: self.allow_resources,
            allow_prompts: self.allow_prompts,
            require_approval: self.require_approval,
            timeout_ms: self.timeout_ms,
            max_response_bytes: self.max_response_bytes,
            allowed_tools: strings_view(self.allowed_tools@),
        }
    }
}

/// A fresh server table: streamable HTTP, enabled, no auth, untrusted,
/// everything allowed, limits and approval from the defaults.
pub open spec fn pending_from_defaults(d: McpDefaults) -> PendingModel {
    PendingModel {
        id: None,
        transport: TransportModel::StreamableHttp,
        endpoint: None,
        enabled: true,
        auth_kind: lit("none"),
        credential_ref: None,
        header_name: lit("X-API-Key"),
        trust: TrustLevel::Untrusted,
        allow_tools: true,
        allow_resources: true,
        allow_prompts: true,
        require_approval: d.require_approval,
        timeout_ms: d.timeout_ms,
        max_response_bytes: d.max_response_bytes,
        allowed_tools: seq![],
    }
}

/// The authentication a finished server table asks for.
pub open spec fn spec_auth(
    kind: Seq<u8>,
    header: Seq<u8>,
    credential: Option<(CredentialScheme, Seq<u8>)>,
    line: nat,
) -> Result<AuthModel, (nat, Seq<char>)> {
    if kind == lit("none") {
        if credential is Some {
            Err((line, "credential_ref is not valid when auth = 'none'"@))
        } else {
            Ok(AuthModel::NoAuth)
        }
    } else if kind == lit("bearer") {
        match credential {
            Some(c) => Ok(AuthModel::Bearer(c)),
            None => Err((line, "bearer auth requires credential_ref"@)),
        }
    } else if kind == lit("api_key") {
        match credential {
            Some(c) => Ok(AuthModel::ApiKey(header, c)),
            None => Err((line, "api_key auth requires credential_ref"@)),
        }
    } else if kind == lit("oauth") {
        match credential {
            None => Err((line, "oauth auth requires credential_ref"@)),
            Some(c) => if c.0 == CredentialScheme::OAuthProfile {
                Ok(AuthModel::OAuth(c))
            } else {
                Err((line, "oauth auth requires an oauth: credential_ref"@))
            },
        }
    } else {
        Err((line, "unsupported auth mode"@))
    }
}

/// The server a finished table describes, or the first problem with it.
pub open spec fn spec_finish(p: PendingModel, line: nat) -> Result<ServerModel, (nat, Seq<char>)> {
    match p.id {
        None => Err((line, "server id is required"@)),
        Some(id) => if !spec_valid_id(id) {
            Err((line, "server id may contain only lowercase letters, digits, '-' and '_'"@))
        } else {
            match p.endpoint {
                None => Err((line, "server endpoint is required"@)),
                Some(endpoint) => {
                    let cred: Result<Option<(CredentialScheme, Seq<u8>)>, (nat, Seq<char>)> =
                        match p.credential_ref {
                        Some(v) => match spec_credential(v) {
                            Ok(c) => Ok(Some(c)),
                            Err(m) => Err((line, m)),
                        },
                        None => Ok(None),
                    };
                    match cred {
                        Err(e) => Err(e),
                        Ok(c) => match spec_auth(p.auth_kind, p.header_name, c, line) {
                            Err(e) => Err(e),
                            Ok(auth) => if p.max_response_bytes == 0 {
                                Err((line, "max_response_bytes must be positive"@))
                            } else {
                                Ok(
                                    ServerModel {
                                        id,
                                        transport: p.transport,
                                        endpoint,
                                        enabled: p.enabled,
                                        auth,
                                        trust: p.trust,
                                        allow_tools: p.allow_tools,
                                        allow_resources: p.allow_resources,
                                        allow_prompts: p.allow_prompts,
                                        require_approval: p.require_approval,
                                        timeout_ms: p.timeout_ms,
                                        max_response_bytes: p.max_response_bytes,
                                        allowed_tools: p.allowed_tools,
                                    },
                                )
                            },
                        },
                    }
                },
            }
        },
    }
}

/// The contents of an optional credential reference.
pub open spec fn cred_view(o: Option<CredentialRef>) -> Option<(CredentialScheme, Seq<u8>)> {
    match o {
        Some(c) => Some(c@),
        None => None,
    }
}

impl PendingServer {
    /// Starts a server table from the current defaults.
    pub fn from_defaults(defaults: &McpDefaults) -> (r: Self)
        ensures
            r@ == pending_from_defaults(*defaults),
    {
        proof { reveal_strlit("none"); reveal_strlit("X-API-Key"); }
        let r = PendingServer {
            id: None,
            transport: TransportKind::StreamableHttp,
            endpoint: None,
            enabled: true,
            auth_kind: ascii_bytes("none"),
            credential_ref: None,
            header_name: ascii_bytes("X-API-Key"),
            trust: TrustLevel::Untrusted,
            allow_tools: true,
            allow_resources: true,
            allow_prompts: true,
            require_approval: defaults.require_approval,
            timeout_ms: defaults.timeout_ms,
            max_response_bytes: defaults.max_response_bytes,
            allowed_tools: Vec::new(),
        };
        assert(strings_view(r.allowed_tools@) =~= seq![]);
        r
    }

    /// Checks a finished table and turns it into a server.
    pub fn finish(self, line: usize) -> (r: Result<ServerConfig, ConfigError>)
        ensures
            match r {
                Ok(s) => spec_finish(self@, line as nat) == Ok::<ServerModel, (nat, Seq<char>)>(
                    s@,
                ),
                Err(e) => spec_finish(self@, line as nat) == Err::<ServerModel, (nat, Seq<char>)>(
                    e@,
                ),
            },
    {
        let ghost p = self@;
        let id = match self.id {
            Some(id) => id,
            None => return Err(ConfigError::new(line, "server id is required")),
        };
        if !valid_id(id.as_slice()) {
            return Err(
                ConfigError::new(
                    line,
                    "server id may contain only lowercase letters, digits, '-' and '_'",
                ),
            );
        }
        let endpoint = match self.endpoint {
            Some(e) => e,
            None => return Err(ConfigError::new(line, "server endpoint is required")),
        };
        let credential: Option<CredentialRef> = match self.credential_ref {
            Some(value) => match CredentialRef::parse(value.as_slice()) {
                Ok(c) => Some(c),
                Err(m) => return Err(ConfigError::new(line, m)),
            },
            None => None,
        };
        let ghost cv = cred_view(credential);
        proof {
            reveal_strlit("none");
            reveal_strlit("bearer");
            reveal_strlit("api_key");
            reveal_strlit("oauth");
        }
        let kind = self.auth_kind.as_slice();
        let auth = if bytes_eq(kind, ascii_bytes("none").as_slice()) {
            if credential.is_some() {
                return Err(ConfigError::new(line, "credential_ref is not valid when auth = 'none'"));
            }
            AuthConfig::NoAuth
        } else if bytes_eq(kind, ascii_bytes("bearer").as_slice()) {
            match credential {
                Some(c) => AuthConfig::Bearer { credential: c },
                None => return Err(ConfigError::new(line, "bearer auth requires credential_ref")),
            }
        } else if bytes_eq(kind, ascii_bytes("api_key").as_slice()) {
            match credential {
                Some(c) => AuthConfig::ApiKey { header: self.header_name, credential: c },
                None => return Err(ConfigError::new(line, "api_key auth requires credential_ref")),
            }
        } else if bytes_eq(kind, ascii_bytes("oauth").as_slice()) {
            match credential {
                None => return Err(ConfigError::new(line, "oauth auth requires credential_ref")),
                Some(c) => match c {
                    CredentialRef::OAuthProfile(_) => AuthConfig::OAuth { profile: c },
                    _ => {
                        return Err(
                            ConfigError::new(line, "oauth auth requires an oauth: credential_ref"),
                        )
                    },
                },
            }
        } else {
            return Err(ConfigError::new(line, "unsupported auth mode"));
        };
        assert(spec_auth(p.auth_kind, p.header_name, cv, line as nat) == Ok::<
            AuthModel,
            (nat, Seq<char>),
        >(auth@));
        if self.max_response_bytes == 0 {
            return Err(ConfigError::new(line, "max_response_bytes must be positive"));
        }
        Ok(
            ServerConfig {
                id,
                transport: self.transport,
                endpoint,
                enabled: self.enabled,
                auth,
                trust: self.trust,
                allow_tools: self.allow_tools,
                allow_resources: self.allow_resources,
                allow_prompts: self.allow_prompts,
                require_approval: self.require_approval,
                timeout_ms: self.timeout_ms,
                max_response_bytes: self.max_response_bytes,
                allowed_tools: self.allowed_tools,
            },
        )
    }
}


/// The defaults after a `key = value` line of `[defaults]`.
pub open spec fn spec_parse_default(d: McpDefaults, key: Seq<u8>, value: Seq<u8>, line: nat) -> Result<
    McpDefaults,
    (nat, Seq<char>),
> {
    if key == lit("timeout_ms") {
        match spec_parse_u64(value) {
            Ok(v) => Ok(McpDefaults { timeout_ms: v, ..d }),
            Err(m) => Err((line, m)),
        }
    } else if key == lit("max_response_bytes") {
        match spec_parse_usize(value) {
            Ok(v) => Ok(McpDefaults { max_response_bytes: v, ..d }),
            Err(m) => Err((line, m)),
        }
    } else if key == lit("require_approval") {
        match spec_parse_bool(value) {
            Some(b) => Ok(McpDefaults { require_approval: b, ..d }),
            None => Err((line, "expected boolean"@)),
        }
    } else {
        Err((line, "unknown defaults key"@))
    }
}

/// Applies one `[defaults]` entry.
pub fn parse_default(defaults: &mut McpDefaults, key: &[u8], value: &[u8], line: usize) -> (r:
    Result<(), ConfigError>)
    ensures
        match r {
            Ok(_) => spec_parse_default(*old(defaults), key@, value@, line as nat) == Ok::<
                McpDefaults,
                (nat, Seq<char>),
            >(*final(defaults)),
            Err(e) => spec_parse_default(*old(defaults), key@, value@, line as nat) == Err::<
                McpDefaults,
                (nat, Seq<char>),
            >(e@),
        },
{
    proof {
        reveal_strlit("timeout_ms");
        reveal_strlit("max_response_bytes");
        reveal_strlit("require_approval");
    }
    if bytes_eq(key, ascii_bytes("timeout_ms").as_slice()) {
        match parse_u64(value, line) {
            Ok(v) => defaults.timeout_ms = v,
            Err(e) => return Err(e),
        }
    } else if bytes_eq(key, ascii_bytes("max_response_bytes").as_slice()) {
        match parse_usize(value, line) {
            Ok(v) => defaults.max_response_bytes = v,
            Err(e) => return Err(e),
        }
    } else if bytes_eq(key, ascii_bytes("require_approval").as_slice()) {
        match parse_bool(value, line) {
            Ok(b) => defaults.require_approval = b,
            Err(e) => return Err(e),
        }
    } else {
        return Err(ConfigError::new(line, "unknown defaults key"));
    }
    Ok(())
}

/// A quoted string value, or the line's error.
pub open spec fn string_at(value: Seq<u8>, line: nat) -> Result<Seq<u8>, (nat, Seq<char>)> {
    match spec_parse_string(value) {
        Some(s) => Ok(s),
        None => Err((line, "expected quoted string"@)),
    }
}

/// A boolean value, or the line's error.
pub open spec fn bool_at(value: Seq<u8>, line: nat) -> Result<bool, (nat, Seq<char>)> {
    match spec_parse_bool(value) {
        Some(b) => Ok(b),
        None => Err((line, "expected boolean"@)),
    }
}

/// The server table after a `key = value` line of `[[servers]]`.
pub open spec fn spec_parse_server(p: PendingModel, key: Seq<u8>, value: Seq<u8>, line: nat) -> Result<
    PendingModel,
    (nat, Seq<char>),
> {
    if key == lit("id") {
        match string_at(value, line) {
            Ok(s) => Ok(PendingModel { id: Some(s), ..p }),
            Err(e) => Err(e),
        }
    } else if key == lit("transport") {
        match string_at(value, line) {
            Ok(s) => Ok(PendingModel { transport: spec_transport(s), ..p }),
            Err(e) => Err(e),
        }
    } else if key == lit("endpoint") {
        match string_at(value, line) {
            Ok(s) => Ok(PendingModel { endpoint: Some(s), ..p }),
            Err(e) => Err(e),
        }
    } else if key == lit("enabled") {
        match bool_at(value, line) {
            Ok(b) => Ok(PendingModel { enabled: b, ..p }),
            Err(e) => Err(e),
        }
    } else if key == lit("auth") {
        match string_at(value, line) {
            Ok(s) => Ok(PendingModel { auth_kind: s, ..p }),
            Err(e) => Err(e),
        }
    } else if key == lit("credential_ref") {
        match string_at(value, line) {
            Ok(s) => Ok(PendingModel { credential_ref: Some(s), ..p }),
            Err(e) => Err(e),
        }
    } else if key == lit("header_name") {
        match string_at(value, line) {
            Ok(s) => Ok(PendingModel { header_name: s, ..p }),
            Err(e) => Err(e),
        }
    } else if key == lit("trust") {
        match string_at(value, line) {
            Ok(s) => match spec_trust(s) {
                Some(t) => Ok(PendingModel { trust: t, ..p }),
                None => Err((line, "invalid trust level"@)),
            },
            Err(e) => Err(e),
        }
    } else if key == lit("allow_tools") {
        match bool_at(value, line) {
            Ok(b) => Ok(PendingModel { allow_tools: b, ..p }),
            Err(e) => Err(e),
        }
    } else if key == lit("allow_resources") {
        match bool_at(value, line) {
            Ok(b) => Ok(PendingModel { allow_resources: b, ..p }),
            Err(e) => Err(e),
        }
    } else if key == lit("allow_prompts") {
        match bool_at(value, line) {
            Ok(b) => Ok(PendingModel { allow_prompts: b, ..p }),
            Err(e) => Err(e),
        }
    } else if key == lit("require_approval") {
        match bool_at(value, line) {
            Ok(b) => Ok(PendingModel { require_approval: b, ..p }),
            Err(e) => Err(e),
        }
    } else if key == lit("timeout_ms") {
        match spec_parse_u64(value) {
            Ok(v) => Ok(PendingModel { timeout_ms: v, ..p }),
            Err(m) => Err((line, m)),
        }
    } else if key == lit("max_response_bytes") {
        match spec_parse_usize(value) {
            Ok(v) => Ok(PendingModel { max_response_bytes: v, ..p }),
            Err(m) => Err((line, m)),
        }
    } else if key == lit("allowed_tools") {
        match spec_parse_string_array(value) {
            Ok(v) => Ok(PendingModel { allowed_tools: v, ..p }),
            Err(m) => Err((line, m)),
        }
    } else {
        Err((line, "unknown server key"@))
    }
}


/// Applies one `[[servers]]` entry.
pub fn parse_server(server: &mut PendingServer, key: &[u8], value: &[u8], line: usize) -> (r: Result<
    (),
    ConfigError,
>)
    ensures
        match r {
            Ok(_) => spec_parse_server(old(server)@, key@, value@, line as nat) == Ok::<
                PendingModel,
                (nat, Seq<char>),
            >(final(server)@),
            Err(e) => spec_parse_server(old(server)@, key@, value@, line as nat) == Err::<
                PendingModel,
                (nat, Seq<char>),
            >(e@),
        },
{
    proof {
        reveal_strlit("id");
        reveal_strlit("transport");
        reveal_strlit("endpoint");
        reveal_strlit("enabled");
        reveal_strlit("auth");
        reveal_strlit("credential_ref");
        reveal_strlit("header_name");
        reveal_strlit("trust");
        reveal_strlit("allow_tools");
        reveal_strlit("allow_resources");
        reveal_strlit("allow_prompts");
        reveal_strlit("require_approval");
        reveal_strlit("timeout_ms");
        reveal_strlit("max_response_bytes");
        reveal_strlit("allowed_tools");
    }
    if bytes_eq(key, ascii_bytes("id").as_slice()) {
        match parse_string(value, line) {
            Ok(s) => server.id = Some(s),
            Err(e) => return Err(e),
        }
    } else if bytes_eq(key, ascii_bytes("transport").as_slice()) {
        match parse_string(value, line) {
            Ok(s) => server.transport = TransportKind::parse(s.as_slice()),
            Err(e) => return Err(e),
        }
    } else if bytes_eq(key, ascii_bytes("endpoint").as_slice()) {
        match parse_string(value, line) {
            Ok(s) => server.endpoint = Some(s),
            Err(e) => return Err(e),
        }
    } else if bytes_eq(key, ascii_bytes("enabled").as_slice()) {
        match parse_bool(value, line) {
            Ok(b) => server.enabled = b,
            Err(e) => return Err(e),
        }
    } else if bytes_eq(key, ascii_bytes("auth").as_slice()) {
        match parse_string(value, line) {
            Ok(s) => server.auth_kind = s,
            Err(e) => return Err(e),
        }
    } else if bytes_eq(key, ascii_bytes("credential_ref").as_slice()) {
        match parse_string(value, line) {
            Ok(s) => server.credential_ref = Some(s),
            Err(e) => return Err(e),
        }
    } else if bytes_eq(key, ascii_bytes("header_name").as_slice()) {
        match parse_string(value, line) {
            Ok(s) => server.header_name = s,
            Err(e) => return Err(e),
        }
    } else if bytes_eq(key, ascii_bytes("trust").as_slice()) {
        match parse_string(value, line) {
            Ok(s) => match TrustLevel::parse(s.as_slice()) {
                Some(t) => server.trust = t,
                None => return Err(ConfigError::new(line, "invalid trust level")),
            },
            Err(e) => return Err(e),
        }
    } else if bytes_eq(key, ascii_bytes("allow_tools").as_slice()) {
        match parse_bool(value, line) {
            Ok(b) => server.allow_tools = b,
            Err(e) => return Err(e),
        }
    } else if bytes_eq(key, ascii_bytes("allow_resources").as_slice()) {
        match parse_bool(value, line) {
            Ok(b) => server.allow_resources = b,
            Err(e) => return Err(e),
        }
    } else if bytes_eq(key, ascii_bytes("allow_prompts").as_slice()) {
        match parse_bool(value, line) {
            Ok(b) => server.allow_prompts = b,
            Err(e) => return Err(e),
        }
    } else if bytes_eq(key, ascii_bytes("require_approval").as_slice()) {
        match parse_bool(value, line) {
            Ok(b) => server.require_approval = b,
            Err(e) => return Err(e),
        }
    } else if bytes_eq(key, ascii_bytes("timeout_ms").as_slice()) {
        match parse_u64(value, line) {
            Ok(v) => server.timeout_ms = v,
            Err(e) => return Err(e),
        }
    } else if bytes_eq(key, ascii_bytes("max_response_bytes").as_slice()) {
        match parse_usize(value, line) {
            Ok(v) => server.max_response_bytes = v,
            Err(e) => return Err(e),
        }
    } else if bytes_eq(key, ascii_bytes("allowed_tools").as_slice()) {
        match parse_string_array(value, line) {
            Ok(v) => server.allowed_tools = v,
            Err(e) => return Err(e),
        }
    } else {
        return Err(ConfigError::new(line, "unknown server key"));
    }
    Ok(())
}


/// Where a `#` comment starts in `s[i..]`, given whether a string is open;
/// `#` inside double quotes does not count.
pub open spec fn comment_cut(s: Seq<u8>, i: nat, quoted: bool) -> nat
    decreases s.len() - i,
{
    if i >= s.len() {
        s.len()
    } else if s[i as int] == 34 {
        comment_cut(s, i + 1, !quoted)
    } else if s[i as int] == 35 && !quoted {
        i
    } else {
        comment_cut(s, i + 1, quoted)
    }
}

proof fn lemma_comment_cut(s: Seq<u8>, i: nat, quoted: bool)
    requires
        i <= s.len(),
    ensures
        i <= comment_cut(s, i, quoted) <= s.len(),
    decreases s.len() - i,
{
    if i < s.len() {
        if s[i as int] == 34 {
            lemma_comment_cut(s, i + 1, !quoted);
        } else if !(s[i as int] == 35 && !quoted) {
            lemma_comment_cut(s, i + 1, quoted);
        }
    }
}

/// A line without its comment.
pub open spec fn spec_strip_comment(line: Seq<u8>) -> Seq<u8> {
    line.subrange(0, comment_cut(line, 0, false) as int)
}

/// Removes a `#` comment that is not inside a quoted string.
pub fn strip_comment(line: &[u8]) -> (r: &[u8])
    ensures
        r@ == spec_strip_comment(line@),
{
    proof {
        lemma_comment_cut(line@, 0, false);
    }
    let mut quoted = false;
    let mut i: usize = 0;
    while i < line.len()
        invariant
            0 <= i <= line@.len(),
            comment_cut(line@, 0, false) == comment_cut(line@, i as nat, quoted),
        decreases line.len() - i,
    {
        let b = line[i];
        if b == 34 {
            quoted = !quoted;
        } else if b == 35 && !quoted {
            return vstd::slice::slice_subrange(line, 0, i);
        }
        i = i + 1;
    }
    line
}

/// The models of an optional server table.
pub open spec fn pending_view(p: Option<PendingServer>) -> Option<PendingModel> {
    match p {
        Some(x) => Some(x@),
        None => None,
    }
}

/// The configuration once the open server table, if any, is finished.
pub open spec fn spec_finish_pending(c: ConfigModel, p: Option<PendingModel>, line: nat) -> Result<
    ConfigModel,
    (nat, Seq<char>),
> {
    match p {
        None => Ok(c),
        Some(p) => match spec_finish(p, line) {
            Ok(s) => Ok(ConfigModel { servers: c.servers.push(s), ..c }),
            Err(e) => Err(e),
        },
    }
}

/// Finishes the open server table, if any, and adds it to the servers.
pub fn finish_pending(config: &mut McpConfig, pending: &mut Option<PendingServer>, line: usize) -> (r:
    Result<(), ConfigError>)
    ensures
        (*final(pending)) is None,
        match r {
            Ok(_) => spec_finish_pending(old(config)@, pending_view(*old(pending)), line as nat)
                == Ok::<ConfigModel, (nat, Seq<char>)>(final(config)@),
            Err(e) => spec_finish_pending(old(config)@, pending_view(*old(pending)), line as nat)
                == Err::<ConfigModel, (nat, Seq<char>)>(e@),
        },
{
    match pending.take() {
        Some(server) => match server.finish(line) {
            Ok(s) => {
                let ghost v0 = config.servers@;
                config.servers.push(s);
                assert(servers_view(config.servers@) =~= servers_view(v0).push(s@));
                Ok(())
            },
            Err(e) => Err(e),
        },
        None => Ok(()),
    }
}

/// The state of the parser between lines.
#[verifier::ext_equal]
pub struct ParseModel {
    pub config: ConfigModel,
    pub section: Section,
    pub pending: Option<PendingModel>,
}

/// The model of the parser's working state.
pub open spec fn parse_model(c: McpConfig, section: Section, p: Option<PendingServer>) -> ParseModel {
    ParseModel { config: c@, section, pending: pending_view(p) }
}

/// The parser state after line number `n` holding `raw`.
pub open spec fn spec_step(st: ParseModel, n: nat, raw: Seq<u8>) -> Result<ParseModel, (nat, Seq<char>)> {
    let line = utrim(spec_strip_comment(raw));
    if line.len() == 0 {
        Ok(st)
    } else if line == lit("[defaults]") {
        match spec_finish_pending(st.config, st.pending, n) {
            Ok(c) => Ok(ParseModel { config: c, section: Section::Defaults, pending: None }),
            Err(e) => Err(e),
        }
    } else if line == lit("[[servers]]") {
        match spec_finish_pending(st.config, st.pending, n) {
            Ok(c) => Ok(
                ParseModel {
                    config: c,
                    section: Section::Server,
                    pending: Some(pending_from_defaults(c.defaults)),
                },
            ),
            Err(e) => Err(e),
        }
    } else {
        match find(line, 61) {
            None => Err((n, "expected key = value"@)),
            Some(i) => {
                let key = utrim(line.subrange(0, i));
                let value = utrim(line.subrange(i + 1, line.len() as int));
                match st.section {
                    Section::Defaults => match spec_parse_default(
                        st.config.defaults,
                        key,
                        value,
                        n,
                    ) {
                        Ok(d) => Ok(
                            ParseModel { config: ConfigModel { defaults: d, ..st.config }, ..st },
                        ),
                        Err(e) => Err(e),
                    },
                    Section::Server => match st.pending {
                        None => Err((n, "missing [[servers]]"@)),
                        Some(p) => match spec_parse_server(p, key, value, n) {
                            Ok(p2) => Ok(ParseModel { pending: Some(p2), ..st }),
                            Err(e) => Err(e),
                        },
                    },
                    Section::Root => Err((n, "keys must be inside [defaults] or [[servers]]"@)),
                }
            },
        }
    }
}

/// Applies line number `n` of the configuration to the parser state.
pub fn apply_line(
    config: &mut McpConfig,
    section: &mut Section,
    pending: &mut Option<PendingServer>,
    n: usize,
    raw: &[u8],
) -> (r: Result<(), ConfigError>)
    ensures
        match r {
            Ok(_) => spec_step(parse_model(*old(config), *old(section), *old(pending)), n as nat, raw@)
                == Ok::<ParseModel, (nat, Seq<char>)>(
                parse_model(*final(config), *final(section), *final(pending)),
            ),
            Err(e) => spec_step(
                parse_model(*old(config), *old(section), *old(pending)),
                n as nat,
                raw@,
            ) == Err::<ParseModel, (nat, Seq<char>)>(e@),
        },
{
    proof {
        reveal_strlit("[defaults]");
        reveal_strlit("[[servers]]");
    }
    let line = utrim_bytes(strip_comment(raw));
    if line.len() == 0 {
        return Ok(());
    }
    if bytes_eq(line, ascii_bytes("[defaults]").as_slice()) {
        match finish_pending(config, pending, n) {
            Ok(_) => {},
            Err(e) => return Err(e),
        }
        *section = Section::Defaults;
        return Ok(());
    }
    if bytes_eq(line, ascii_bytes("[[servers]]").as_slice()) {
        match finish_pending(config, pending, n) {
            Ok(_) => {},
            Err(e) => return Err(e),
        }
        *pending = Some(PendingServer::from_defaults(&config.defaults));
        *section = Section::Server;
        return Ok(());
    }
    proof {
        lemma_find_from(line@, 61, 0);
    }
    let i = match find_byte(line, 61) {
        Some(i) => i,
        None => return Err(ConfigError::new(n, "expected key = value")),
    };
    let ll = line.len();
    let key = utrim_bytes(vstd::slice::slice_subrange(line, 0, i));
    let value = utrim_bytes(vstd::slice::slice_subrange(line, i + 1, ll));
    match *section {
        Section::Defaults => parse_default(&mut config.defaults, key, value, n),
        Section::Server => {
            let taken = pending.take();
            match taken {
                Some(mut p) => {
                    let r = parse_server(&mut p, key, value, n);
                    *pending = Some(p);
                    r
                },
                None => Err(ConfigError::new(n, "missing [[servers]]")),
            }
        },
        Section::Root => Err(ConfigError::new(n, "keys must be inside [defaults] or [[servers]]")),
    }
}


/// The parser state after lines `i..` of `ls` (line `k` has number `k + 1`).
pub open spec fn spec_fold(ls: Seq<Seq<u8>>, i: nat, st: ParseModel) -> Result<
    ParseModel,
    (nat, Seq<char>),
>
    decreases ls.len() - i,
{
    if i >= ls.len() {
        Ok(st)
    } else {
        match spec_step(st, i + 1, ls[i as int]) {
            Ok(next) => spec_fold(ls, i + 1, next),
            Err(e) => Err(e),
        }
    }
}

/// No two servers share an id.
pub open spec fn ids_unique(servers: Seq<ServerModel>) -> bool {
    forall|i: int, j: int| 0 <= i < j < servers.len() ==> servers[i].id != servers[j].id
}

/// The state before the first line.
pub open spec fn initial_model() -> ParseModel {
    ParseModel {
        config: ConfigModel { defaults: default_defaults(), servers: seq![] },
        section: Section::Root,
        pending: None,
    }
}

/// The configuration a file describes, or the first error in it.
pub open spec fn spec_parse_config(data: Seq<u8>) -> Result<ConfigModel, (nat, Seq<char>)> {
    if !vstd::utf8::valid_utf8(data) {
        Err((0, "configuration must be UTF-8"@))
    } else {
        let ls = lines(data);
        match spec_fold(ls, 0, initial_model()) {
            Err(e) => Err(e),
            Ok(st) => match spec_finish_pending(st.config, st.pending, ls.len() + 1) {
                Err(e) => Err(e),
                Ok(c) => if ids_unique(c.servers) {
                    Ok(c)
                } else {
                    Err((0, "server ids must be unique"@))
                },
            },
        }
    }
}

/// Refuses a list of servers in which an id occurs twice.
pub fn ensure_unique_ids(servers: &[ServerConfig]) -> (r: Result<(), ConfigError>)
    ensures
        match r {
            Ok(_) => ids_unique(servers_view(servers@)),
            Err(e) => !ids_unique(servers_view(servers@)) && e@ == (
                0nat,
                "server ids must be unique"@,
            ),
        },
{
    let ghost sv = servers_view(servers@);
    let mut j: usize = 0;
    while j < servers.len()
        invariant
            0 <= j <= servers@.len(),
            sv == servers_view(servers@),
            sv.len() == servers@.len(),
            forall|a: int, b: int| 0 <= a < b < j ==> sv[a].id != sv[b].id,
        decreases servers.len() - j,
    {
        let mut i: usize = 0;
        while i < j
            invariant
                0 <= i <= j < servers@.len(),
                sv == servers_view(servers@),
                sv.len() == servers@.len(),
                forall|a: int, b: int| 0 <= a < b < j ==> sv[a].id != sv[b].id,
                forall|a: int| 0 <= a < i ==> sv[a].id != sv[j as int].id,
            decreases j - i,
        {
            if bytes_eq(servers[i].id.as_slice(), servers[j].id.as_slice()) {
                assert(sv[i as int].id == sv[j as int].id);
                return Err(ConfigError::new(0, "server ids must be unique"));
            }
            i = i + 1;
        }
        j = j + 1;
    }
    Ok(())
}

impl McpConfig {
    /// A configuration with the built-in defaults and no servers.
    pub fn empty() -> (r: Self)
        ensures
            r@ == (ConfigModel { defaults: default_defaults(), servers: seq![] }),
    {
        let r = McpConfig { defaults: McpDefaults::default(), servers: Vec::new() };
        assert(servers_view(r.servers@) =~= seq![]);
        r
    }

    /// Parses a configuration file.
    pub fn parse(data: &[u8]) -> (r: Result<Self, ConfigError>)
        requires
            data@.len() < usize::MAX,
        ensures
            match r {
                Ok(c) => spec_parse_config(data@) == Ok::<ConfigModel, (nat, Seq<char>)>(c@),
                Err(e) => spec_parse_config(data@) == Err::<ConfigModel, (nat, Seq<char>)>(e@),
            },
    {
        if !is_utf8(data) {
            return Err(ConfigError::new(0, "configuration must be UTF-8"));
        }
        let ghost ls = lines(data@);
        proof {
            lemma_lines_len(data@);
        }
        let mut config = McpConfig::empty();
        let mut section = Section::Root;
        let mut pending: Option<PendingServer> = None;
        let mut rest = data;
        let mut n: usize = 0;
        let dl = data.len();
        assert(ls.subrange(0, ls.len() as int) =~= ls);
        while rest.len() > 0
            invariant
                vstd::utf8::valid_utf8(data@),
                ls == lines(data@),
                ls.len() <= dl,
                dl < usize::MAX,
                n <= ls.len(),
                lines(rest@) == ls.subrange(n as int, ls.len() as int),
                spec_fold(ls, 0, initial_model()) == spec_fold(
                    ls,
                    n as nat,
                    parse_model(config, section, pending),
                ),
            decreases rest@.len(),
        {
            let (raw, next) = split_first_line(rest);
            proof {
                let tail = ls.subrange(n as int, ls.len() as int);
                assert(tail == seq![raw@] + lines(next@));
                assert(tail.len() >= 1);
                assert(tail[0] == raw@);
                assert(ls[n as int] == raw@);
                assert(lines(next@) =~= tail.drop_first());
                assert(tail.drop_first() =~= ls.subrange(n + 1, ls.len() as int));
            }
            match apply_line(&mut config, &mut section, &mut pending, n + 1, raw) {
                Ok(_) => {},
                Err(e) => return Err(e),
            }
            n = n + 1;
            rest = next;
        }
        assert(lines(rest@).len() == 0);
        assert(n == ls.len());
        match finish_pending(&mut config, &mut pending, n + 1) {
            Ok(_) => {},
            Err(e) => return Err(e),
        }
        match ensure_unique_ids(config.servers.as_slice()) {
            Ok(_) => {},
            Err(e) => return Err(e),
        }
        Ok(config)
    }

    /// The servers that are enabled, in order.
    pub fn enabled_servers(&self) -> (r: Vec<&ServerConfig>)
        ensures
            servers_view(r@.map_values(|s: &ServerConfig| *s)) == enabled_only(
                servers_view(self.servers@),
            ),
    {
        let mut out: Vec<&ServerConfig> = Vec::new();
        let mut i: usize = 0;
        while i < self.servers.len()
            invariant
                0 <= i <= self.servers@.len(),
                servers_view(out@.map_values(|s: &ServerConfig| *s)) == enabled_only(
                    servers_view(self.servers@.subrange(0, i as int)),
                ),
            decreases self.servers.len() - i,
        {
            let ghost o0 = out@;
            let s = &self.servers[i];
            if s.enabled {
                out.push(s);
            }
            proof {
                let sv = servers_view(self.servers@.subrange(0, i + 1));
                assert(sv.drop_last() =~= servers_view(self.servers@.subrange(0, i as int)));
                assert(sv.last() == s@);
                if s.enabled {
                    assert(out@.map_values(|s: &ServerConfig| *s) =~= o0.map_values(
                        |s: &ServerConfig| *s,
                    ).push(*s));
                    assert(servers_view(out@.map_values(|s: &ServerConfig| *s)) =~= servers_view(
                        o0.map_values(|s: &ServerConfig| *s),
                    ).push(s@));
                } else {
                    assert(out@ == o0);
                }
            }
            i = i + 1;
        }
        assert(self.servers@.subrange(0, i as int) =~= self.servers@);
        out
    }

    /// The first server with the given id.
    pub fn find(&self, id: &[u8]) -> (r: Option<&ServerConfig>)
        ensures
            match r {
                Some(s) => exists|i: int|
                    0 <= i < self.servers@.len() && self.servers@[i] == *s && s.id@ == id@
                        && forall|j: int| 0 <= j < i ==> (#[trigger] self.servers@[j]).id@ != id@,
                None => forall|j: int|
                    0 <= j < self.servers@.len() ==> (#[trigger] self.servers@[j]).id@ != id@,
            },
    {
        let mut i: usize = 0;
        while i < self.servers.len()
            invariant
                0 <= i <= self.servers@.len(),
                forall|j: int| 0 <= j < i ==> (#[trigger] self.servers@[j]).id@ != id@,
            decreases self.servers.len() - i,
        {
            if bytes_eq(self.servers[i].id.as_slice(), id) {
                return Some(&self.servers[i]);
            }
            i = i + 1;
        }
        None
    }
}

/// The enabled servers of a list, in order.
pub open spec fn enabled_only(s: Seq<ServerModel>) -> Seq<ServerModel>
    decreases s.len(),
{
    if s.len() == 0 {
        s
    } else if s.last().enabled {
        enabled_only(s.drop_last()).push(s.last())
    } else {
        enabled_only(s.drop_last())
    }
}


/// A credential reference names a scheme and a non-blank locator.
pub open spec fn credential_ok(c: (CredentialScheme, Seq<u8>)) -> bool {
    utrim(c.1).len() > 0
}

/// Authentication always goes through a named credential source, and OAuth
/// through an OAuth profile.
pub open spec fn auth_ok(a: AuthModel) -> bool {
    match a {
        AuthModel::NoAuth => true,
        AuthModel::Bearer(c) => credential_ok(c),
        AuthModel::ApiKey(_, c) => credential_ok(c),
        AuthModel::OAuth(c) => credential_ok(c) && c.0 == CredentialScheme::OAuthProfile,
    }
}

/// What every accepted server satisfies.
pub open spec fn server_ok(s: ServerModel) -> bool {
    spec_valid_id(s.id) && s.max_response_bytes > 0 && auth_ok(s.auth)
}

/// Every server of a list is acceptable.
pub open spec fn all_servers_ok(servers: Seq<ServerModel>) -> bool {
    forall|i: int| 0 <= i < servers.len() ==> server_ok(#[trigger] servers[i])
}

proof fn lemma_finish_ok(p: PendingModel, line: nat)
    ensures
        spec_finish(p, line) matches Ok(s) ==> server_ok(s),
{
}

proof fn lemma_finish_pending_ok(c: ConfigModel, p: Option<PendingModel>, line: nat)
    requires
        all_servers_ok(c.servers),
    ensures
        spec_finish_pending(c, p, line) matches Ok(c2) ==> all_servers_ok(c2.servers),
{
    if let Some(pm) = p {
        lemma_finish_ok(pm, line);
        if let Ok(s) = spec_finish(pm, line) {
            let c2 = c.servers.push(s);
            assert forall|i: int| 0 <= i < c2.len() implies server_ok(#[trigger] c2[i]) by {
                if i < c.servers.len() {
                    assert(c2[i] == c.servers[i]);
                }
            }
        }
    }
}

proof fn lemma_step_ok(st: ParseModel, n: nat, raw: Seq<u8>)
    requires
        all_servers_ok(st.config.servers),
    ensures
        spec_step(st, n, raw) matches Ok(st2) ==> all_servers_ok(st2.config.servers),
{
    lemma_finish_pending_ok(st.config, st.pending, n);
}

proof fn lemma_fold_ok(ls: Seq<Seq<u8>>, i: nat, st: ParseModel)
    requires
        all_servers_ok(st.config.servers),
    ensures
        spec_fold(ls, i, st) matches Ok(st2) ==> all_servers_ok(st2.config.servers),
    decreases ls.len() - i,
{
    if i < ls.len() {
        lemma_step_ok(st, i + 1, ls[i as int]);
        if let Ok(next) = spec_step(st, i + 1, ls[i as int]) {
            lemma_fold_ok(ls, i + 1, next);
        }
    }
}

/// Every server of an accepted configuration has a valid id that no other
/// server shares and a positive response limit, and authenticates only
/// through a named credential source (never an inline secret): a known
/// scheme with a non-blank locator, an OAuth profile for OAuth.
pub proof fn lemma_accepted_config_well_formed(data: Seq<u8>)
    requires
        spec_parse_config(data) is Ok,
    ensures
        ids_unique(spec_parse_config(data)->Ok_0.servers),
        all_servers_ok(spec_parse_config(data)->Ok_0.servers),
{
    let ls = lines(data);
    assert(all_servers_ok(initial_model().config.servers));
    lemma_fold_ok(ls, 0, initial_model());
    let st = spec_fold(ls, 0, initial_model())->Ok_0;
    lemma_finish_pending_ok(st.config, st.pending, ls.len() + 1);
}


impl TransportKind {
    pub fn duplicate(&self) -> (r: TransportKind)
        ensures
            r@ == self@,
    {
        match self {
            TransportKind::StreamableHttp => TransportKind::StreamableHttp,
            TransportKind::StdioBridge => TransportKind::StdioBridge,
            TransportKind::Custom(v) => TransportKind::Custom(to_vec(v.as_slice())),
        }
    }
}

impl CredentialRef {
    pub fn duplicate(&self) -> (r: CredentialRef)
        ensures
            r@ == self@,
    {
        match self {
            CredentialRef::Environment(v) => CredentialRef::Environment(to_vec(v.as_slice())),
            CredentialRef::File(v) => CredentialRef::File(to_vec(v.as_slice())),
            CredentialRef::OAuthProfile(v) => CredentialRef::OAuthProfile(to_vec(v.as_slice())),
            CredentialRef::FirmwareVariable(v) => CredentialRef::FirmwareVariable(to_vec(v.as_slice())),
        }
    }
}

impl AuthConfig {
    pub fn duplicate(&self) -> (r: AuthConfig)
        ensures
            r@ == self@,
    {
        match self {
            AuthConfig::NoAuth => AuthConfig::NoAuth,
            AuthConfig::Bearer { credential } => AuthConfig::Bearer { credential: credential.duplicate() },
            AuthConfig::ApiKey { header, credential } => AuthConfig::ApiKey {
                header: to_vec(header.as_slice()),
                credential: credential.duplicate(),
            },
            AuthConfig::OAuth { profile } => AuthConfig::OAuth { profile: profile.duplicate() },
        }
    }
}

/// A copy of a list of byte strings.
pub fn copy_strings(v: &Vec<Vec<u8>>) -> (r: Vec<Vec<u8>>)
    ensures
        strings_view(r@) == strings_view(v@),
{
    let mut out: Vec<Vec<u8>> = Vec::new();
    let mut i: usize = 0;
    while i < v.len()
        invariant
            0 <= i <= v@.len(),
            strings_view(out@) =~= strings_view(v@.subrange(0, i as int)),
        decreases v.len() - i,
    {
        let c = to_vec(v[i].as_slice());
        let ghost before = out@;
        out.push(c);
        proof {
            assert(v@.subrange(0, i + 1) =~= v@.subrange(0, i as int).push(v@[i as int]));
            assert(strings_view(out@) =~= strings_view(before).push(c@));
        }
        i = i + 1;
    }
    assert(v@.subrange(0, i as int) =~= v@);
    out
}

impl ServerConfig {
    pub fn duplicate(&self) -> (r: ServerConfig)
        ensures
            r@ == self@,
    {
        ServerConfig {
            id: to_vec(self.id.as_slice()),
            transport: self.transport.duplicate(),
            endpoint: to_vec(self.endpoint.as_slice()),
            enabled: self.enabled,
            auth: self.auth.duplicate(),
            trust: self.trust,
            allow_tools: self.allow_tools,
            allow_resources: self.allow_resources,
            allow_prompts: self.allow_prompts,
            require_approval: self.require_approval,
            timeout_ms: self.timeout_ms,
            max_response_bytes: self.max_response_bytes,
            allowed_tools: copy_strings(&self.allowed_tools),
        }
    }
}

} // verus!
