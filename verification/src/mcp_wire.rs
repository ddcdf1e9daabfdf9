//! Transport-independent MCP JSON-RPC messages. Every request carries its
//! protocol version, client identity and capabilities in `_meta`.

use vstd::prelude::*;

use crate::json::{
    duplicate_members, empty_object, jentries, jget, jinsert, jopt, jtext, members_of, object_insert,
    JModel, JsonValue,
};
use crate::text::{
    ascii_bytes, bytes_eq, dec, digit_run, digits_value, is_digit, lemma_digit_run, lit, to_vec,
};

verus! {

/// The protocol version this client speaks natively.
pub const LATEST_PROTOCOL_VERSION: &'static str = "2026-07-28";

/// The version this client reports for itself.
pub const CLIENT_VERSION: &'static str = "0.2.0";

/// Decimal text of a signed integer.
pub open spec fn idec(v: int) -> Seq<u8> {
    if v < 0 {
        seq![45u8] + dec((-v) as nat)
    } else {
        dec(v as nat)
    }
}

/// A number holding the decimal text of `v`.
pub fn json_i64(v: i64) -> (r: JsonValue)
    ensures
        r@ == JModel::Number(idec(v as int)),
{
    let mut t: Vec<u8> = Vec::new();
    if v < 0 {
        t.push(45);
        let m: u64 = (-(v as i128)) as u64;
        crate::text::push_dec(&mut t, m);
    } else {
        crate::text::push_dec(&mut t, v as u64);
    }
    assert(t@ =~= idec(v as int));
    JsonValue::Number(t)
}

/// Whether a number's text starts with a minus sign.
pub open spec fn num_neg(t: Seq<u8>) -> bool {
    t.len() > 0 && t[0] == 45
}

/// Where the integer digits of a number's text end.
pub open spec fn int_end(t: Seq<u8>) -> int {
    digit_run(t, (if num_neg(t) { 1nat } else { 0nat })) as int
}

/// The value of the integer digits of a number's text.
pub open spec fn num_mag(t: Seq<u8>) -> nat {
    digits_value(t.subrange(if num_neg(t) { 1int } else { 0int }, int_end(t)))
}

/// A number written without an exponent: integer digits, then
/// optionally a point and digits.
pub open spec fn num_plain(t: Seq<u8>) -> bool {
    int_end(t) == t.len() || (t[int_end(t)] == 46 && digit_run(t, (int_end(t) + 1) as nat)
        == t.len())
}

/// A number without an exponent whose fractional digits, if any, are all
/// zero.
pub open spec fn num_whole(t: Seq<u8>) -> bool {
    num_plain(t) && forall|k: int| int_end(t) < k < t.len() ==> t[k] == 48
}

/// The integer part of a number written without an exponent.
pub open spec fn num_trunc(t: Seq<u8>) -> int {
    if num_neg(t) {
        -(num_mag(t) as int)
    } else {
        num_mag(t) as int
    }
}

/// `v` limited to `[lo, hi]`.
pub open spec fn clamp(v: int, lo: int, hi: int) -> int {
    if v < lo {
        lo
    } else if v > hi {
        hi
    } else {
        v
    }
}

/// Reads a number written without an exponent: its sign, the value of
/// its integer digits limited to `cap`, and whether its fractional digits
/// are all zero.
fn read_num(t: &[u8], cap: u64) -> (r: Option<(bool, u64, bool)>)
    ensures
        match r {
            Some((neg, m, whole)) => num_plain(t@) && neg == num_neg(t@) && m == (if num_mag(t@)
                < cap {
                num_mag(t@) as int
            } else {
                cap as int
            }) && whole == num_whole(t@),
            None => !num_plain(t@),
        },
{
    let n = t.len();
    let neg = n > 0 && t[0] == 45;
    let i1: usize = if neg {
        1
    } else {
        0
    };
    proof {
        lemma_digit_run(t@, i1 as nat);
    }
    let mut acc: u64 = 0;
    let mut i = i1;
    assert(t@.subrange(i1 as int, i1 as int) =~= seq![]);
    while i < n && 48 <= t[i] && t[i] <= 57
        invariant
            i1 <= i <= n,
            n == t@.len(),
            neg == num_neg(t@),
            i1 == (if neg { 1int } else { 0int }),
            digit_run(t@, i1 as nat) == digit_run(t@, i as nat),
            acc as int == (if digits_value(t@.subrange(i1 as int, i as int)) < cap {
                digits_value(t@.subrange(i1 as int, i as int)) as int
            } else {
                cap as int
            }),
        decreases n - i,
    {
        let d = (t[i] - 48) as u64;
        let ghost before = digits_value(t@.subrange(i1 as int, i as int));
        assert(t@.subrange(i1 as int, i + 1).drop_last() =~= t@.subrange(i1 as int, i as int));
        assert(digits_value(t@.subrange(i1 as int, i + 1)) == before * 10 + d);
        if acc < cap {
            let next: u128 = (acc as u128) * 10 + (d as u128);
            if next >= cap as u128 {
                acc = cap;
            } else {
                acc = next as u64;
            }
        }
        i = i + 1;
    }
    assert(i == int_end(t@));
    if i == n {
        return Some((neg, acc, true));
    }
    if t[i] != 46 {
        return None;
    }
    let mut k = i + 1;
    let mut zeros = true;
    proof {
        lemma_digit_run(t@, (i + 1) as nat);
    }
    while k < n && 48 <= t[k] && t[k] <= 57
        invariant
            i + 1 <= k <= n,
            n == t@.len(),
            i < n && t@[i as int] == 46,
            digit_run(t@, (i + 1) as nat) == digit_run(t@, k as nat),
            zeros == (forall|q: int| i < q < k ==> t@[q] == 48),
        decreases n - k,
    {
        if t[k] != 48 {
            zeros = false;
        }
        k = k + 1;
    }
    if k == n {
        Some((neg, acc, zeros))
    } else {
        None
    }
}

/// The integer part of a number's text (written without an exponent)
/// limited to the range of `i32`, as a float-to-integer cast limits it.
pub open spec fn num_i32(t: Seq<u8>) -> Option<i32> {
    if num_plain(t) {
        Some(clamp(num_trunc(t), i32::MIN as int, i32::MAX as int) as i32)
    } else {
        None
    }
}

/// A time-to-live in milliseconds from a number's text (written without
/// an exponent): negative values give 0, the rest their integer part
/// limited to `u64`.
pub open spec fn num_ttl(t: Seq<u8>) -> Option<u64> {
    if !num_plain(t) {
        None
    } else if num_neg(t) {
        Some(0)
    } else {
        Some(clamp(num_mag(t) as int, 0, u64::MAX as int) as u64)
    }
}

pub fn number_i32(t: &[u8]) -> (r: Option<i32>)
    ensures
        r == num_i32(t@),
{
    match read_num(t, 0x8000_0000) {
        Some((neg, m, _)) => {
            if neg {
                Some((-(m as i64)) as i32)
            } else if m > 0x7fff_ffff {
                Some(0x7fff_ffff)
            } else {
                Some(m as i32)
            }
        },
        None => None,
    }
}

pub fn number_ttl(t: &[u8]) -> (r: Option<u64>)
    ensures
        r == num_ttl(t@),
{
    match read_num(t, u64::MAX) {
        Some((neg, m, _)) => if neg {
            Some(0)
        } else {
            Some(m)
        },
        None => None,
    }
}

/// A request id: a string or an integer.
#[derive(Debug)]
pub enum RequestId {
    Text(Vec<u8>),
    Number(i64),
}

/// Model of a request id.
pub enum RidModel {
    Text(Seq<u8>),
    Number(i64),
}

impl RequestId {
    pub open spec fn view(&self) -> RidModel {
        match self {
            RequestId::Text(s) => RidModel::Text(s@),
            RequestId::Number(n) => RidModel::Number(*n),
        }
    }

    pub fn duplicate(&self) -> (r: RequestId)
        ensures
            r@ == self@,
    {
        match self {
            RequestId::Text(s) => RequestId::Text(to_vec(s.as_slice())),
            RequestId::Number(n) => RequestId::Number(*n),
        }
    }
}

/// The JSON of a request id.
pub open spec fn rid_json(id: RidModel) -> JModel {
    match id {
        RidModel::Text(s) => JModel::Str(s),
        RidModel::Number(n) => JModel::Number(idec(n as int)),
    }
}

/// The request id a JSON value denotes: a string, or a number with an
/// integer value in the range of `i64`.
pub open spec fn rid_of(v: JModel) -> Option<RidModel> {
    match v {
        JModel::Str(s) => Some(RidModel::Text(s)),
        JModel::Number(t) => if num_whole(t) && i64::MIN <= num_trunc(t) <= i64::MAX {
            Some(RidModel::Number(num_trunc(t) as i64))
        } else {
            None
        },
        _ => None,
    }
}

impl RequestId {
    pub fn to_json(&self) -> (r: JsonValue)
        ensures
            r@ == rid_json(self@),
    {
        match self {
            RequestId::Text(s) => JsonValue::Str(to_vec(s.as_slice())),
            RequestId::Number(n) => json_i64(*n),
        }
    }

    pub fn from_json(value: &JsonValue) -> (r: Option<RequestId>)
        ensures
            match r {
                Some(id) => rid_of(value@) == Some(id@),
                None => rid_of(value@) is None,
            },
    {
        match value {
            JsonValue::Str(s) => Some(RequestId::Text(to_vec(s.as_slice()))),
            JsonValue::Number(t) => match read_num(t.as_slice(), 0x8000_0000_0000_0001) {
                Some((neg, m, whole)) => {
                    if !whole {
                        None
                    } else if neg {
                        if m <= 0x8000_0000_0000_0000 {
                            Some(RequestId::Number((-(m as i128)) as i64))
                        } else {
                            None
                        }
                    } else if m <= 0x7fff_ffff_ffff_ffff {
                        Some(RequestId::Number(m as i64))
                    } else {
                        None
                    }
                },
                None => None,
            },
            _ => None,
        }
    }
}

/// Who this client is.
#[derive(Debug)]
pub struct ClientIdentity {
    pub name: Vec<u8>,
    pub version: Vec<u8>,
}

/// The JSON of a client identity.
pub open spec fn identity_json(name: Seq<u8>, version: Seq<u8>) -> JModel {
    JModel::Object(jinsert(jinsert(seq![], lit("name"), JModel::Str(name)), lit("version"), JModel::Str(version)))
}

impl ClientIdentity {
    /// This client: `genos` and its version.
    pub fn genos() -> (r: ClientIdentity)
        ensures
            r.name@ == lit("genos"),
            r.version@ == lit(CLIENT_VERSION),
    {
        proof { reveal_strlit("genos"); reveal_strlit("0.2.0"); }
        ClientIdentity { name: ascii_bytes("genos"), version: ascii_bytes(CLIENT_VERSION) }
    }

    pub fn duplicate(&self) -> (r: ClientIdentity)
        ensures
            r.name@ == self.name@,
            r.version@ == self.version@,
    {
        ClientIdentity { name: to_vec(self.name.as_slice()), version: to_vec(self.version.as_slice()) }
    }

    fn to_json(&self) -> (r: JsonValue)
        ensures
            r@ == identity_json(self.name@, self.version@),
    {
        let mut m: Vec<(Vec<u8>, JsonValue)> = Vec::new();
        assert(jentries(m@) =~= seq![]);
        proof { reveal_strlit("name"); reveal_strlit("version"); }
        object_insert(&mut m, ascii_bytes("name"), JsonValue::Str(to_vec(self.name.as_slice())));
        object_insert(&mut m, ascii_bytes("version"), JsonValue::Str(to_vec(self.version.as_slice())));
        JsonValue::Object(m)
    }
}


/// The `_meta` carried by every request.
#[derive(Debug)]
pub struct RequestMetadata {
    pub protocol_version: Vec<u8>,
    pub client: ClientIdentity,
    pub capabilities: JsonValue,
    /// Further members, in key order.
    pub extra: Vec<(Vec<u8>, JsonValue)>,
}

pub open spec fn meta_key_version() -> Seq<u8> {
    lit("io.modelcontextprotocol/protocolVersion")
}

pub open spec fn meta_key_client() -> Seq<u8> {
    lit("io.modelcontextprotocol/clientInfo")
}

pub open spec fn meta_key_capabilities() -> Seq<u8> {
    lit("io.modelcontextprotocol/clientCapabilities")
}

/// The JSON of request metadata: the extra members with the protocol
/// version, client identity and capabilities set.
pub open spec fn metadata_json(m: RequestMetadata) -> JModel {
    JModel::Object(
        jinsert(
            jinsert(
                jinsert(jentries(m.extra@), meta_key_version(), JModel::Str(m.protocol_version@)),
                meta_key_client(),
                identity_json(m.client.name@, m.client.version@),
            ),
            meta_key_capabilities(),
            m.capabilities@,
        ),
    )
}

impl RequestMetadata {
    /// Metadata for the latest protocol version, with no capabilities.
    pub fn modern(client: ClientIdentity) -> (r: RequestMetadata)
        ensures
            r.protocol_version@ == lit(LATEST_PROTOCOL_VERSION),
            r.client == client,
            r.capabilities@ == JModel::Object(seq![]),
            jentries(r.extra@) == Seq::<(Seq<u8>, JModel)>::empty(),
    {
        proof { reveal_strlit("2026-07-28"); }
        let extra: Vec<(Vec<u8>, JsonValue)> = Vec::new();
        assert(jentries(extra@) =~= seq![]);
        RequestMetadata {
            protocol_version: ascii_bytes(LATEST_PROTOCOL_VERSION),
            client,
            capabilities: empty_object(),
            extra,
        }
    }

    pub fn with_capabilities(self, capabilities: JsonValue) -> (r: RequestMetadata)
        ensures
            r.protocol_version == self.protocol_version,
            r.client == self.client,
            r.capabilities == capabilities,
            r.extra == self.extra,
    {
        let mut s = self;
        s.capabilities = capabilities;
        s
    }

    pub fn to_json(&self) -> (r: JsonValue)
        ensures
            r@ == metadata_json(*self),
    {
        let mut values = duplicate_members(&self.extra);
        proof {
            reveal_strlit("io.modelcontextprotocol/protocolVersion");
            reveal_strlit("io.modelcontextprotocol/clientInfo");
            reveal_strlit("io.modelcontextprotocol/clientCapabilities");
        }
        object_insert(
            &mut values,
            ascii_bytes("io.modelcontextprotocol/protocolVersion"),
            JsonValue::Str(to_vec(self.protocol_version.as_slice())),
        );
        object_insert(&mut values, ascii_bytes("io.modelcontextprotocol/clientInfo"), self.client.to_json());
        object_insert(
            &mut values,
            ascii_bytes("io.modelcontextprotocol/clientCapabilities"),
            self.capabilities.duplicate(),
        );
        JsonValue::Object(values)
    }

    pub fn duplicate(&self) -> (r: RequestMetadata)
        ensures
            r.protocol_version@ == self.protocol_version@,
            r.client.name@ == self.client.name@,
            r.client.version@ == self.client.version@,
            r.capabilities@ == self.capabilities@,
            jentries(r.extra@) == jentries(self.extra@),
    {
        RequestMetadata {
            protocol_version: to_vec(self.protocol_version.as_slice()),
            client: self.client.duplicate(),
            capabilities: self.capabilities.duplicate(),
            extra: duplicate_members(&self.extra),
        }
    }
}

/// Parameters with `_meta` set (a non-object is replaced by an empty
/// object first).
pub open spec fn with_meta(params: JModel, meta: JModel) -> JModel {
    JModel::Object(jinsert(members_of(params), lit("_meta"), meta))
}

fn attach_metadata(params: JsonValue, metadata: JsonValue) -> (r: JsonValue)
    ensures
        r@ == with_meta(params@, metadata@),
{
    let mut values = match params {
        JsonValue::Object(values) => values,
        _ => {
            let v: Vec<(Vec<u8>, JsonValue)> = Vec::new();
            assert(jentries(v@) =~= seq![]);
            v
        },
    };
    proof { reveal_strlit("_meta"); }
    object_insert(&mut values, ascii_bytes("_meta"), metadata);
    JsonValue::Object(values)
}

/// A JSON-RPC request.
#[derive(Debug)]
pub struct RpcRequest {
    pub id: RequestId,
    pub method: Vec<u8>,
    pub params: JsonValue,
}

/// The JSON of a request.
pub open spec fn request_json(id: RidModel, method: Seq<u8>, params: JModel) -> JModel {
    JModel::Object(
        jinsert(
            jinsert(
                jinsert(jinsert(seq![], lit("jsonrpc"), JModel::Str(lit("2.0"))), lit("id"), rid_json(id)),
                lit("method"),
                JModel::Str(method),
            ),
            lit("params"),
            params,
        ),
    )
}

/// An error: its code and message (no data).
pub open spec fn err_of(code: i32, msg: Seq<u8>) -> (i32, Seq<u8>) {
    (code, msg)
}

/// What a JSON value reads as a request: its id, method and parameters,
/// or the code and message of the error that refuses it.
pub open spec fn request_of(v: JModel) -> Result<(RidModel, Seq<u8>, JModel), (i32, Seq<u8>)> {
    if jget(v, lit("jsonrpc")) != Some(JModel::Str(lit("2.0"))) {
        Err(err_of(McpError::INVALID_REQUEST, lit("jsonrpc must be '2.0'")))
    } else if !(jget(v, lit("id")) matches Some(i) && rid_of(i) is Some) {
        Err(err_of(McpError::INVALID_REQUEST, lit("request id must be a string or integer")))
    } else if !(jget(v, lit("method")) matches Some(JModel::Str(_))) {
        Err(err_of(McpError::INVALID_REQUEST, lit("request method is missing")))
    } else {
        let params = match jget(v, lit("params")) {
            Some(p) => p,
            None => JModel::Object(seq![]),
        };
        if !(params is Object) {
            Err(err_of(McpError::INVALID_PARAMS, lit("params must be an object")))
        } else {
            Ok((rid_of(jget(v, lit("id"))->Some_0)->Some_0, jget(v, lit("method"))->Some_0->Str_0, params))
        }
    }
}

impl RpcRequest {
    /// A request whose parameters carry the metadata under `_meta`.
    pub fn new(id: RequestId, method: &[u8], params: JsonValue, metadata: &RequestMetadata) -> (r: RpcRequest)
        ensures
            r.id == id,
            r.method@ == method@,
            r.params@ == with_meta(params@, metadata_json(*metadata)),
    {
        let params = attach_metadata(params, metadata.to_json());
        RpcRequest { id, method: to_vec(method), params }
    }

    /// A `server/discover` request.
    pub fn discover(id: RequestId, metadata: &RequestMetadata) -> (r: RpcRequest)
        ensures
            r.id == id,
            r.method@ == lit(crate::method::SERVER_DISCOVER),
            r.params@ == with_meta(JModel::Object(seq![]), metadata_json(*metadata)),
    {
        proof { reveal_strlit("server/discover"); }
        let m = ascii_bytes(crate::method::SERVER_DISCOVER);
        RpcRequest::new(id, m.as_slice(), empty_object(), metadata)
    }

    pub fn to_json(&self) -> (r: JsonValue)
        ensures
            r@ == request_json(self.id@, self.method@, self.params@),
    {
        let mut m: Vec<(Vec<u8>, JsonValue)> = Vec::new();
        assert(jentries(m@) =~= seq![]);
        proof { reveal_strlit("jsonrpc"); reveal_strlit("2.0"); reveal_strlit("id"); reveal_strlit("method"); reveal_strlit("params"); }
        object_insert(&mut m, ascii_bytes("jsonrpc"), JsonValue::Str(ascii_bytes("2.0")));
        object_insert(&mut m, ascii_bytes("id"), self.id.to_json());
        object_insert(&mut m, ascii_bytes("method"), JsonValue::Str(to_vec(self.method.as_slice())));
        object_insert(&mut m, ascii_bytes("params"), self.params.duplicate());
        JsonValue::Object(m)
    }

    pub fn to_json_string(&self) -> (r: Vec<u8>)
        ensures
            r@ == jtext(request_json(self.id@, self.method@, self.params@)),
    {
        self.to_json().to_json_string()
    }

    pub fn from_json(value: &JsonValue) -> (r: Result<RpcRequest, McpError>)
        ensures
            match r {
                Ok(q) => request_of(value@) == Ok::<_, (i32, Seq<u8>)>((q.id@, q.method@, q.params@)),
                Err(e) => request_of(value@) == Err::<(RidModel, Seq<u8>, JModel), _>((e.code, e.message@)) && e.data is None,
            },
    {
        proof { reveal_strlit("jsonrpc must be '2.0'"); reveal_strlit("params must be an object"); reveal_strlit("request id must be a string or integer"); reveal_strlit("request method is missing"); }
        proof { reveal_strlit("jsonrpc"); reveal_strlit("2.0"); reveal_strlit("id"); reveal_strlit("method"); reveal_strlit("params"); }
        let ok_version = match value.get(ascii_bytes("jsonrpc").as_slice()) {
            Some(v) => match v.as_str() {
                Some(s) => bytes_eq(s, ascii_bytes("2.0").as_slice()),
                None => false,
            },
            None => false,
        };
        if !ok_version {
            return Err(McpError::invalid_request(ascii_bytes("jsonrpc must be '2.0'").as_slice()));
        }
        let id = match value.get(ascii_bytes("id").as_slice()) {
            Some(v) => match RequestId::from_json(v) {
                Some(id) => id,
                None => return Err(McpError::invalid_request(ascii_bytes("request id must be a string or integer").as_slice())),
            },
            None => return Err(McpError::invalid_request(ascii_bytes("request id must be a string or integer").as_slice())),
        };
        let method = match value.get(ascii_bytes("method").as_slice()) {
            Some(v) => match v.as_str() {
                Some(s) => to_vec(s),
                None => return Err(McpError::invalid_request(ascii_bytes("request method is missing").as_slice())),
            },
            None => return Err(McpError::invalid_request(ascii_bytes("request method is missing").as_slice())),
        };
        let params = match value.get(ascii_bytes("params").as_slice()) {
            Some(p) => p.duplicate(),
            None => empty_object(),
        };
        if params.as_object().is_none() {
            return Err(McpError::invalid_params(ascii_bytes("params must be an object").as_slice()));
        }
        Ok(RpcRequest { id, method, params })
    }

    /// The protocol version named in the request's `_meta`.
    pub fn protocol_version(&self) -> (r: Option<&[u8]>)
        ensures
            match r {
                Some(s) => (jget(self.params@, lit("_meta")) matches Some(m) && jget(m, meta_key_version())
                    == Some(JModel::Str(s@))),
                None => !(jget(self.params@, lit("_meta")) matches Some(m) && jget(m, meta_key_version()) matches Some(JModel::Str(_))),
            },
    {
        proof { reveal_strlit("_meta"); reveal_strlit("io.modelcontextprotocol/protocolVersion"); }
        let meta = match self.params.get(ascii_bytes("_meta").as_slice()) {
            Some(m) => m,
            None => return None,
        };
        match meta.get(ascii_bytes("io.modelcontextprotocol/protocolVersion").as_slice()) {
            Some(v) => v.as_str(),
            None => None,
        }
    }
}

/// A JSON-RPC error.
#[derive(Debug)]
pub struct McpError {
    pub code: i32,
    pub message: Vec<u8>,
    pub data: Option<JsonValue>,
}

/// The JSON of an error.
pub open spec fn error_json(code: i32, message: Seq<u8>, data: Option<JModel>) -> JModel {
    let m = jinsert(jinsert(seq![], lit("code"), JModel::Number(idec(code as int))), lit("message"), JModel::Str(message));
    JModel::Object(
        match data {
            Some(d) => jinsert(m, lit("data"), d),
            None => m,
        },
    )
}

/// What a JSON value reads as an error: its code (a number written
/// without an exponent, limited to `i32`), message and data.
pub open spec fn error_of(v: JModel) -> Result<(i32, Seq<u8>, Option<JModel>), (i32, Seq<u8>)> {
    if !(jget(v, lit("code")) matches Some(JModel::Number(t)) && num_i32(t) is Some) {
        Err(err_of(McpError::INVALID_REQUEST, lit("error code is missing")))
    } else if !(jget(v, lit("message")) matches Some(JModel::Str(_))) {
        Err(err_of(McpError::INVALID_REQUEST, lit("error message is missing")))
    } else {
        Ok((num_i32(jget(v, lit("code"))->Some_0->Number_0)->Some_0, jget(v, lit("message"))->Some_0->Str_0, jget(v, lit("data"))))
    }
}

impl McpError {
    pub const PARSE_ERROR: i32 = -32700;

    pub const INVALID_REQUEST: i32 = -32600;

    pub const METHOD_NOT_FOUND: i32 = -32601;

    pub const INVALID_PARAMS: i32 = -32602;

    pub const INTERNAL_ERROR: i32 = -32603;

    pub const UNSUPPORTED_PROTOCOL_VERSION: i32 = -32022;

    pub fn new(code: i32, message: &[u8]) -> (r: McpError)
        ensures
            r.code == code,
            r.message@ == message@,
            r.data is None,
    {
        McpError { code, message: to_vec(message), data: None }
    }

    pub fn invalid_request(message: &[u8]) -> (r: McpError)
        ensures
            r.code == McpError::INVALID_REQUEST,
            r.message@ == message@,
            r.data is None,
    {
        McpError::new(McpError::INVALID_REQUEST, message)
    }

    pub fn invalid_params(message: &[u8]) -> (r: McpError)
        ensures
            r.code == McpError::INVALID_PARAMS,
            r.message@ == message@,
            r.data is None,
    {
        McpError::new(McpError::INVALID_PARAMS, message)
    }

    pub fn method_not_found(method: &[u8]) -> (r: McpError)
        ensures
            r.code == McpError::METHOD_NOT_FOUND,
            r.message@ == method@,
            r.data is None,
    {
        McpError::new(McpError::METHOD_NOT_FOUND, method)
    }

    pub fn duplicate(&self) -> (r: McpError)
        ensures
            r.code == self.code,
            r.message@ == self.message@,
            jopt(r.data) == jopt(self.data),
    {
        McpError {
            code: self.code,
            message: to_vec(self.message.as_slice()),
            data: match &self.data {
                Some(d) => Some(d.duplicate()),
                None => None,
            },
        }
    }

    pub fn from_json(value: &JsonValue) -> (r: Result<McpError, McpError>)
        ensures
            match r {
                Ok(e) => error_of(value@) == Ok::<_, (i32, Seq<u8>)>((e.code, e.message@, jopt(e.data))),
                Err(e) => error_of(value@) == Err::<(i32, Seq<u8>, Option<JModel>), _>((e.code, e.message@)) && e.data is None,
            },
    {
        proof { reveal_strlit("error code is missing"); reveal_strlit("error message is missing"); }
        proof { reveal_strlit("code"); reveal_strlit("message"); reveal_strlit("data"); }
        let code = match value.get(ascii_bytes("code").as_slice()) {
            Some(JsonValue::Number(t)) => match number_i32(t.as_slice()) {
                Some(c) => c,
                None => return Err(McpError::invalid_request(ascii_bytes("error code is missing").as_slice())),
            },
            _ => return Err(McpError::invalid_request(ascii_bytes("error code is missing").as_slice())),
        };
        let message = match value.get(ascii_bytes("message").as_slice()) {
            Some(v) => match v.as_str() {
                Some(s) => to_vec(s),
                None => return Err(McpError::invalid_request(ascii_bytes("error message is missing").as_slice())),
            },
            None => return Err(McpError::invalid_request(ascii_bytes("error message is missing").as_slice())),
        };
        let data = match value.get(ascii_bytes("data").as_slice()) {
            Some(d) => Some(d.duplicate()),
            None => None,
        };
        Ok(McpError { code, message, data })
    }

    pub fn to_json(&self) -> (r: JsonValue)
        ensures
            r@ == error_json(self.code, self.message@, jopt(self.data)),
    {
        let mut m: Vec<(Vec<u8>, JsonValue)> = Vec::new();
        assert(jentries(m@) =~= seq![]);
        proof { reveal_strlit("code"); reveal_strlit("message"); reveal_strlit("data"); }
        object_insert(&mut m, ascii_bytes("code"), json_i64(self.code as i64));
        object_insert(&mut m, ascii_bytes("message"), JsonValue::Str(to_vec(self.message.as_slice())));
        match &self.data {
            Some(d) => object_insert(&mut m, ascii_bytes("data"), d.duplicate()),
            None => {},
        }
        JsonValue::Object(m)
    }
}

/// A JSON-RPC response.
#[derive(Debug)]
pub struct RpcResponse {
    pub id: RequestId,
    pub result: Option<JsonValue>,
    pub error: Option<McpError>,
}

/// The model of an optional error: code, message and data.
pub open spec fn err_model(e: Option<McpError>) -> Option<(i32, Seq<u8>, Option<JModel>)> {
    match e {
        Some(x) => Some((x.code, x.message@, jopt(x.data))),
        None => None,
    }
}

/// What a JSON value reads as a response: id, result and error, exactly
/// one of the last two present.
pub open spec fn response_of(v: JModel) -> Result<
    (RidModel, Option<JModel>, Option<(i32, Seq<u8>, Option<JModel>)>),
    (i32, Seq<u8>),
> {
    if jget(v, lit("jsonrpc")) != Some(JModel::Str(lit("2.0"))) {
        Err(err_of(McpError::INVALID_REQUEST, lit("jsonrpc must be '2.0'")))
    } else if !(jget(v, lit("id")) matches Some(i) && rid_of(i) is Some) {
        Err(err_of(McpError::INVALID_REQUEST, lit("response id is missing")))
    } else {
        let result = jget(v, lit("result"));
        match jget(v, lit("error")) {
            Some(ev) => match error_of(ev) {
                Err(e) => Err(e),
                Ok(e) => if result is Some {
                    Err(err_of(McpError::INVALID_REQUEST, lit("response must contain exactly one of result or error")))
                } else {
                    Ok((rid_of(jget(v, lit("id"))->Some_0)->Some_0, result, Some(e)))
                },
            },
            None => if result is None {
                Err(err_of(McpError::INVALID_REQUEST, lit("response must contain exactly one of result or error")))
            } else {
                Ok((rid_of(jget(v, lit("id"))->Some_0)->Some_0, result, None))
            },
        }
    }
}

/// The JSON of a response.
pub open spec fn response_json(id: RidModel, result: Option<JModel>, error: Option<(i32, Seq<u8>, Option<JModel>)>) -> JModel {
    let m0 = jinsert(jinsert(seq![], lit("jsonrpc"), JModel::Str(lit("2.0"))), lit("id"), rid_json(id));
    let m1 = match result {
        Some(r) => jinsert(m0, lit("result"), r),
        None => m0,
    };
    JModel::Object(
        match error {
            Some((c, m, d)) => jinsert(m1, lit("error"), error_json(c, m, d)),
            None => m1,
        },
    )
}

impl RpcResponse {
    pub fn success(id: RequestId, result: JsonValue) -> (r: RpcResponse)
        ensures
            r.id == id,
            r.result == Some(result),
            r.error is None,
    {
        RpcResponse { id, result: Some(result), error: None }
    }

    pub fn failure(id: RequestId, error: McpError) -> (r: RpcResponse)
        ensures
            r.id == id,
            r.result is None,
            r.error == Some(error),
    {
        RpcResponse { id, result: None, error: Some(error) }
    }

    pub fn from_json(value: &JsonValue) -> (r: Result<RpcResponse, McpError>)
        ensures
            match r {
                Ok(q) => response_of(value@) == Ok::<_, (i32, Seq<u8>)>((q.id@, jopt(q.result), err_model(q.error))),
                Err(e) => response_of(value@) == Err::<(RidModel, Option<JModel>, Option<(i32, Seq<u8>, Option<JModel>)>), _>((e.code, e.message@)) && e.data is None,
            },
    {
        proof { reveal_strlit("jsonrpc must be '2.0'"); reveal_strlit("response id is missing"); reveal_strlit("response must contain exactly one of result or error"); }
        proof { reveal_strlit("jsonrpc"); reveal_strlit("2.0"); reveal_strlit("id"); reveal_strlit("result"); reveal_strlit("error"); }
        let ok_version = match value.get(ascii_bytes("jsonrpc").as_slice()) {
            Some(v) => match v.as_str() {
                Some(s) => bytes_eq(s, ascii_bytes("2.0").as_slice()),
                None => false,
            },
            None => false,
        };
        if !ok_version {
            return Err(McpError::invalid_request(ascii_bytes("jsonrpc must be '2.0'").as_slice()));
        }
        let id = match value.get(ascii_bytes("id").as_slice()) {
            Some(v) => match RequestId::from_json(v) {
                Some(id) => id,
                None => return Err(McpError::invalid_request(ascii_bytes("response id is missing").as_slice())),
            },
            None => return Err(McpError::invalid_request(ascii_bytes("response id is missing").as_slice())),
        };
        let result = match value.get(ascii_bytes("result").as_slice()) {
            Some(v) => Some(v.duplicate()),
            None => None,
        };
        let error = match value.get(ascii_bytes("error").as_slice()) {
            Some(ev) => match McpError::from_json(ev) {
                Ok(e) => Some(e),
                Err(e) => return Err(e),
            },
            None => None,
        };
        if result.is_some() == error.is_some() {
            return Err(McpError::invalid_request(ascii_bytes("response must contain exactly one of result or error").as_slice()));
        }
        Ok(RpcResponse { id, result, error })
    }

    pub fn to_json(&self) -> (r: JsonValue)
        ensures
            r@ == response_json(self.id@, jopt(self.result), err_model(self.error)),
    {
        let mut m: Vec<(Vec<u8>, JsonValue)> = Vec::new();
        assert(jentries(m@) =~= seq![]);
        proof { reveal_strlit("jsonrpc"); reveal_strlit("2.0"); reveal_strlit("id"); reveal_strlit("result"); reveal_strlit("error"); }
        object_insert(&mut m, ascii_bytes("jsonrpc"), JsonValue::Str(ascii_bytes("2.0")));
        object_insert(&mut m, ascii_bytes("id"), self.id.to_json());
        match &self.result {
            Some(r) => object_insert(&mut m, ascii_bytes("result"), r.duplicate()),
            None => {},
        }
        match &self.error {
            Some(e) => object_insert(&mut m, ascii_bytes("error"), e.to_json()),
            None => {},
        }
        JsonValue::Object(m)
    }
}

} // verus!
