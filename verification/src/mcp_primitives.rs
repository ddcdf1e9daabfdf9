//! Names under which MCP primitives are exposed to the model
//! (`mcp.<server>.<primitive>`), cache scopes and primitive errors.

use vstd::prelude::*;

use crate::json::{
    copy_opt, empty_object, get_opt_str, get_str, jentries, jget, jinsert, jopt, object_insert, opt_str_at,
    sopt, str_at, JModel, JsonValue,
};
use crate::mcp_wire::{num_ttl, number_ttl};
use crate::sorted_map::{
    lemma_sfind, lemma_smap_sinsert, lemma_smap_sremove, pairs_view, sfind, sget, sinsert, sm_find, sm_get,
    sm_insert, sm_remove, smap, sremove,
};
use crate::sysconfig::{bytes_less, bytes_lt};
use crate::text::{
    ascii_bytes, bytes_eq, find, find_byte, has_prefix, lemma_find_from, lit, push_all, starts_with,
    to_vec,
};

verus! {

/// The exposed name of a server's primitive.
pub open spec fn spec_namespaced(server_id: Seq<u8>, primitive: Seq<u8>) -> Seq<u8> {
    lit("mcp.") + server_id + seq![46u8] + primitive
}

/// `mcp.<server>.<primitive>`.
pub fn namespaced(server_id: &[u8], primitive_name: &[u8]) -> (r: Vec<u8>)
    ensures
        r@ == spec_namespaced(server_id@, primitive_name@),
{
    proof {
        reveal_strlit("mcp.");
    }
    let mut value = ascii_bytes("mcp.");
    push_all(&mut value, server_id);
    value.push(46);
    push_all(&mut value, primitive_name);
    value
}

/// Server and primitive of an exposed name: after `mcp.`, split at the
/// first `.`; both parts must be non-empty.
pub open spec fn spec_split_namespaced(v: Seq<u8>) -> Option<(Seq<u8>, Seq<u8>)> {
    if !has_prefix(v, lit("mcp.")) {
        None
    } else {
        let rest = v.subrange(4, v.len() as int);
        match find(rest, 46) {
            None => None,
            Some(i) => {
                let server = rest.subrange(0, i);
                let primitive = rest.subrange(i + 1, rest.len() as int);
                if server.len() == 0 || primitive.len() == 0 {
                    None
                } else {
                    Some((server, primitive))
                }
            },
        }
    }
}

/// Splits an exposed name into server and primitive.
pub fn split_namespaced(value: &[u8]) -> (r: Option<(&[u8], &[u8])>)
    ensures
        match r {
            Some((s, p)) => spec_split_namespaced(value@) == Some((s@, p@)),
            None => spec_split_namespaced(value@) is None,
        },
{
    proof {
        reveal_strlit("mcp.");
    }
    if !starts_with(value, ascii_bytes("mcp.").as_slice()) {
        return None;
    }
    let rest = vstd::slice::slice_subrange(value, 4, value.len());
    proof {
        lemma_find_from(rest@, 46, 0);
    }
    match find_byte(rest, 46) {
        None => None,
        Some(i) => {
            let n = rest.len();
            let server = vstd::slice::slice_subrange(rest, 0, i);
            let primitive = vstd::slice::slice_subrange(rest, i + 1, n);
            if server.len() == 0 || primitive.len() == 0 {
                None
            } else {
                Some((server, primitive))
            }
        },
    }
}

/// Splitting an exposed name recovers the server and primitive it was made
/// from, as long as the server id is non-empty and holds no `.` and the
/// primitive name is non-empty; and a name that splits is exactly the
/// exposed name of its parts.
pub proof fn lemma_namespaced_roundtrip(server: Seq<u8>, primitive: Seq<u8>, v: Seq<u8>)
    ensures
        server.len() > 0 && primitive.len() > 0 && find(server, 46) is None ==> spec_split_namespaced(
            spec_namespaced(server, primitive),
        ) == Some((server, primitive)),
        spec_split_namespaced(v) matches Some((s, p)) ==> spec_namespaced(s, p) == v,
{
    reveal_strlit("mcp.");
    let n = spec_namespaced(server, primitive);
    if server.len() > 0 && primitive.len() > 0 && find(server, 46) is None {
        assert(n.subrange(0, 4) =~= lit("mcp."));
        let rest = n.subrange(4, n.len() as int);
        assert(rest =~= server + seq![46u8] + primitive);
        lemma_find_from(server, 46, 0);
        lemma_find_from(rest, 46, 0);
        assert(rest[server.len() as int] == 46);
        assert forall|k: int| 0 <= k < server.len() implies rest[k] != 46 by {
            assert(rest[k] == server[k]);
        }
        assert(find(rest, 46) == Some(server.len() as int));
        assert(rest.subrange(0, server.len() as int) =~= server);
        assert(rest.subrange(server.len() + 1int, rest.len() as int) =~= primitive);
    }
    if let Some((s, p)) = spec_split_namespaced(v) {
        let rest = v.subrange(4, v.len() as int);
        lemma_find_from(rest, 46, 0);
        let i = find(rest, 46).unwrap();
        assert(rest =~= s + seq![46u8] + p);
        assert(v =~= v.subrange(0, 4) + rest);
        assert(v.subrange(0, 4) =~= lit("mcp."));
    }
}

/// Who may cache a listing.
#[derive(Debug, Clone, Copy, PartialEq, Eq, Structural)]
pub enum CacheScope {
    NoCache,
    Private,
    Public,
}

/// A malformed MCP primitive descriptor.
#[derive(Debug, Clone, PartialEq, Eq)]
pub struct PrimitiveError {
    pub message: Vec<u8>,
}

impl PrimitiveError {
    pub fn new(message: &str) -> (r: Self)
        requires
            message.is_ascii(),
        ensures
            r.message@ == lit(message),
    {
        PrimitiveError { message: ascii_bytes(message) }
    }
}

/// The cache scope named in a listing: absent or `none` means no caching.
pub open spec fn spec_cache_scope(name: Option<Seq<u8>>) -> Option<CacheScope> {
    match name {
        None => Some(CacheScope::NoCache),
        Some(s) => if s == lit("none") {
            Some(CacheScope::NoCache)
        } else if s == lit("private") {
            Some(CacheScope::Private)
        } else if s == lit("public") {
            Some(CacheScope::Public)
        } else {
            None
        },
    }
}

impl CacheScope {
    /// Reads a cache scope name.
    pub fn from_name(name: Option<&[u8]>) -> (r: Result<Self, PrimitiveError>)
        ensures
            match r {
                Ok(c) => spec_cache_scope(match name {
                    Some(s) => Some(s@),
                    None => None,
                }) == Some(c),
                Err(e) => spec_cache_scope(match name {
                    Some(s) => Some(s@),
                    None => None,
                }) is None && e.message@ == lit("invalid MCP cacheScope"),
            },
    {
        proof {
            reveal_strlit("none");
            reveal_strlit("private");
            reveal_strlit("public");
            reveal_strlit("invalid MCP cacheScope");
        }
        match name {
            None => Ok(CacheScope::NoCache),
            Some(s) => {
                if crate::text::bytes_eq(s, ascii_bytes("none").as_slice()) {
                    Ok(CacheScope::NoCache)
                } else if crate::text::bytes_eq(s, ascii_bytes("private").as_slice()) {
                    Ok(CacheScope::Private)
                } else if crate::text::bytes_eq(s, ascii_bytes("public").as_slice()) {
                    Ok(CacheScope::Public)
                } else {
                    Err(PrimitiveError::new("invalid MCP cacheScope"))
                }
            },
        }
    }
}

/// Whether a catalog fetched at `fetched_at_ms` with a time-to-live is
/// still fresh at `now_ms`.
pub open spec fn spec_is_fresh(ttl_ms: Option<u64>, fetched_at_ms: u64, now_ms: u64) -> bool {
    match ttl_ms {
        Some(ttl) => (if now_ms >= fetched_at_ms {
            now_ms - fetched_at_ms
        } else {
            0
        }) < ttl,
        None => false,
    }
}

/// Freshness of a cached catalog.
pub fn is_fresh(ttl_ms: Option<u64>, fetched_at_ms: u64, now_ms: u64) -> (r: bool)
    ensures
        r == spec_is_fresh(ttl_ms, fetched_at_ms, now_ms),
{
    match ttl_ms {
        Some(ttl) => {
            let age = if now_ms >= fetched_at_ms {
                now_ms - fetched_at_ms
            } else {
                0
            };
            age < ttl
        },
        None => false,
    }
}


/// The message for a missing or non-string required field.
pub open spec fn missing_msg() -> Seq<u8> {
    lit("required string field is missing")
}

/// The message for an optional field of the wrong type.
pub open spec fn wrong_type_msg() -> Seq<u8> {
    lit("optional string field has wrong type")
}

fn required_string(value: &JsonValue, field: &[u8]) -> (r: Result<Vec<u8>, PrimitiveError>)
    ensures
        match r {
            Ok(s) => str_at(value@, field@) == Some(s@),
            Err(e) => str_at(value@, field@) is None && e.message@ == missing_msg(),
        },
{
    proof { reveal_strlit("required string field is missing"); }
    match get_str(value, field) {
        Some(s) => Ok(s),
        None => Err(PrimitiveError::new("required string field is missing")),
    }
}

fn optional_string(value: &JsonValue, field: &[u8]) -> (r: Result<Option<Vec<u8>>, PrimitiveError>)
    ensures
        match r {
            Ok(o) => opt_str_at(value@, field@) == Ok::<Option<Seq<u8>>, ()>(sopt(o)),
            Err(e) => opt_str_at(value@, field@) is Err && e.message@ == wrong_type_msg(),
        },
{
    proof { reveal_strlit("optional string field has wrong type"); }
    match get_opt_str(value, field) {
        Ok(o) => Ok(o),
        Err(_) => Err(PrimitiveError::new("optional string field has wrong type")),
    }
}

/// A tool a server offers.
#[derive(Debug)]
pub struct Tool {
    pub name: Vec<u8>,
    pub title: Option<Vec<u8>>,
    pub description: Option<Vec<u8>>,
    pub input_schema: JsonValue,
    pub output_schema: Option<JsonValue>,
    pub annotations: Option<JsonValue>,
}

/// Model of a tool.
pub struct ToolModel {
    pub name: Seq<u8>,
    pub title: Option<Seq<u8>>,
    pub description: Option<Seq<u8>>,
    pub input_schema: JModel,
    pub output_schema: Option<JModel>,
    pub annotations: Option<JModel>,
}

/// What a JSON descriptor reads as a tool: a string `name`, an object
/// `inputSchema`, optional string `title` and `description`, and any
/// `outputSchema` and `annotations`.
pub open spec fn tool_of(v: JModel) -> Result<ToolModel, Seq<u8>> {
    match str_at(v, lit("name")) {
        None => Err(missing_msg()),
        Some(name) => match jget(v, lit("inputSchema")) {
            None => Err(lit("tool inputSchema is required")),
            Some(schema) => if !(schema is Object) {
                Err(lit("tool inputSchema must be an object"))
            } else {
                match (opt_str_at(v, lit("title")), opt_str_at(v, lit("description"))) {
                    (Err(_), _) => Err(wrong_type_msg()),
                    (Ok(_), Err(_)) => Err(wrong_type_msg()),
                    (Ok(title), Ok(description)) => Ok(
                        ToolModel {
                            name,
                            title,
                            description,
                            input_schema: schema,
                            output_schema: jget(v, lit("outputSchema")),
                            annotations: jget(v, lit("annotations")),
                        },
                    ),
                }
            },
        },
    }
}

/// Sets a member when a value is present.
pub open spec fn put_opt(m: Seq<(Seq<u8>, JModel)>, k: Seq<u8>, v: Option<JModel>) -> Seq<(Seq<u8>, JModel)> {
    match v {
        Some(x) => jinsert(m, k, x),
        None => m,
    }
}

/// A string member when present.
pub open spec fn str_opt(s: Option<Seq<u8>>) -> Option<JModel> {
    match s {
        Some(x) => Some(JModel::Str(x)),
        None => None,
    }
}

/// The JSON of a tool.
pub open spec fn tool_json(t: ToolModel) -> JModel {
    JModel::Object(
        put_opt(
            put_opt(
                jinsert(
                    put_opt(
                        put_opt(jinsert(seq![], lit("name"), JModel::Str(t.name)), lit("title"), str_opt(t.title)),
                        lit("description"),
                        str_opt(t.description),
                    ),
                    lit("inputSchema"),
                    t.input_schema,
                ),
                lit("outputSchema"),
                t.output_schema,
            ),
            lit("annotations"),
            t.annotations,
        ),
    )
}

fn put_opt_str(m: &mut Vec<(Vec<u8>, JsonValue)>, key: Vec<u8>, v: &Option<Vec<u8>>)
    ensures
        jentries(final(m)@) == put_opt(jentries(old(m)@), key@, str_opt(sopt(*v))),
{
    match v {
        Some(x) => object_insert(m, key, JsonValue::Str(to_vec(x.as_slice()))),
        None => {},
    }
}

fn put_opt_json(m: &mut Vec<(Vec<u8>, JsonValue)>, key: Vec<u8>, v: &Option<JsonValue>)
    ensures
        jentries(final(m)@) == put_opt(jentries(old(m)@), key@, jopt(*v)),
{
    match v {
        Some(x) => object_insert(m, key, x.duplicate()),
        None => {},
    }
}

impl Tool {
    pub open spec fn view(&self) -> ToolModel {
        ToolModel {
            name: self.name@,
            title: sopt(self.title),
            description: sopt(self.description),
            input_schema: self.input_schema@,
            output_schema: jopt(self.output_schema),
            annotations: jopt(self.annotations),
        }
    }

    pub fn duplicate(&self) -> (r: Tool)
        ensures
            r@ == self@,
    {
        Tool {
            name: to_vec(self.name.as_slice()),
            title: copy_opt(&self.title),
            description: copy_opt(&self.description),
            input_schema: self.input_schema.duplicate(),
            output_schema: crate::json::duplicate_opt(self.output_schema.as_ref()),
            annotations: crate::json::duplicate_opt(self.annotations.as_ref()),
        }
    }

    pub fn from_json(value: &JsonValue) -> (r: Result<Tool, PrimitiveError>)
        ensures
            match r {
                Ok(t) => tool_of(value@) == Ok::<ToolModel, Seq<u8>>(t@),
                Err(e) => tool_of(value@) == Err::<ToolModel, Seq<u8>>(e.message@),
            },
    {
        proof { reveal_strlit("name"); reveal_strlit("inputSchema"); reveal_strlit("title"); reveal_strlit("description"); reveal_strlit("outputSchema"); reveal_strlit("annotations"); reveal_strlit("tool inputSchema is required"); reveal_strlit("tool inputSchema must be an object"); }
        let name = required_string(value, ascii_bytes("name").as_slice())?;
        let input_schema = match value.get(ascii_bytes("inputSchema").as_slice()) {
            Some(v) => v.duplicate(),
            None => return Err(PrimitiveError::new("tool inputSchema is required")),
        };
        if input_schema.as_object().is_none() {
            return Err(PrimitiveError::new("tool inputSchema must be an object"));
        }
        let title = optional_string(value, ascii_bytes("title").as_slice())?;
        let description = optional_string(value, ascii_bytes("description").as_slice())?;
        let output_schema = crate::json::duplicate_opt(value.get(ascii_bytes("outputSchema").as_slice()));
        let annotations = crate::json::duplicate_opt(value.get(ascii_bytes("annotations").as_slice()));
        Ok(Tool { name, title, description, input_schema, output_schema, annotations })
    }

    pub fn to_json(&self) -> (r: JsonValue)
        ensures
            r@ == tool_json(self@),
    {
        proof { reveal_strlit("name"); reveal_strlit("inputSchema"); reveal_strlit("title"); reveal_strlit("description"); reveal_strlit("outputSchema"); reveal_strlit("annotations"); }
        let mut m: Vec<(Vec<u8>, JsonValue)> = Vec::new();
        assert(jentries(m@) =~= seq![]);
        object_insert(&mut m, ascii_bytes("name"), JsonValue::Str(to_vec(self.name.as_slice())));
        put_opt_str(&mut m, ascii_bytes("title"), &self.title);
        put_opt_str(&mut m, ascii_bytes("description"), &self.description);
        object_insert(&mut m, ascii_bytes("inputSchema"), self.input_schema.duplicate());
        put_opt_json(&mut m, ascii_bytes("outputSchema"), &self.output_schema);
        put_opt_json(&mut m, ascii_bytes("annotations"), &self.annotations);
        JsonValue::Object(m)
    }
}

/// A resource a server offers.
#[derive(Debug)]
pub struct Resource {
    pub uri: Vec<u8>,
    pub name: Vec<u8>,
    pub title: Option<Vec<u8>>,
    pub description: Option<Vec<u8>>,
    pub mime_type: Option<Vec<u8>>,
}

/// Model of a resource.
pub struct ResourceModel {
    pub uri: Seq<u8>,
    pub name: Seq<u8>,
    pub title: Option<Seq<u8>>,
    pub description: Option<Seq<u8>>,
    pub mime_type: Option<Seq<u8>>,
}

/// What a JSON descriptor reads as a resource: string `uri` and `name`,
/// optional string `title`, `description` and `mimeType`.
pub open spec fn resource_of(v: JModel) -> Result<ResourceModel, Seq<u8>> {
    if str_at(v, lit("uri")) is None || str_at(v, lit("name")) is None {
        Err(missing_msg())
    } else if opt_str_at(v, lit("title")) is Err || opt_str_at(v, lit("description")) is Err
        || opt_str_at(v, lit("mimeType")) is Err {
        Err(wrong_type_msg())
    } else {
        Ok(
            ResourceModel {
                uri: str_at(v, lit("uri"))->Some_0,
                name: str_at(v, lit("name"))->Some_0,
                title: opt_str_at(v, lit("title"))->Ok_0,
                description: opt_str_at(v, lit("description"))->Ok_0,
                mime_type: opt_str_at(v, lit("mimeType"))->Ok_0,
            },
        )
    }
}

/// The JSON of a resource.
pub open spec fn resource_json(r: ResourceModel) -> JModel {
    JModel::Object(
        put_opt(
            put_opt(
                put_opt(
                    jinsert(jinsert(seq![], lit("uri"), JModel::Str(r.uri)), lit("name"), JModel::Str(r.name)),
                    lit("title"),
                    str_opt(r.title),
                ),
                lit("description"),
                str_opt(r.description),
            ),
            lit("mimeType"),
            str_opt(r.mime_type),
        ),
    )
}

impl Resource {
    pub open spec fn view(&self) -> ResourceModel {
        ResourceModel {
            uri: self.uri@,
            name: self.name@,
            title: sopt(self.title),
            description: sopt(self.description),
            mime_type: sopt(self.mime_type),
        }
    }

    pub fn duplicate(&self) -> (r: Resource)
        ensures
            r@ == self@,
    {
        Resource {
            uri: to_vec(self.uri.as_slice()),
            name: to_vec(self.name.as_slice()),
            title: copy_opt(&self.title),
            description: copy_opt(&self.description),
            mime_type: copy_opt(&self.mime_type),
        }
    }

    pub fn from_json(value: &JsonValue) -> (r: Result<Resource, PrimitiveError>)
        ensures
            match r {
                Ok(x) => resource_of(value@) == Ok::<ResourceModel, Seq<u8>>(x@),
                Err(e) => resource_of(value@) == Err::<ResourceModel, Seq<u8>>(e.message@),
            },
    {
        proof { reveal_strlit("uri"); reveal_strlit("name"); reveal_strlit("title"); reveal_strlit("description"); reveal_strlit("mimeType"); }
        let uri = required_string(value, ascii_bytes("uri").as_slice())?;
        let name = required_string(value, ascii_bytes("name").as_slice())?;
        let title = optional_string(value, ascii_bytes("title").as_slice())?;
        let description = optional_string(value, ascii_bytes("description").as_slice())?;
        let mime_type = optional_string(value, ascii_bytes("mimeType").as_slice())?;
        Ok(Resource { uri, name, title, description, mime_type })
    }

    pub fn to_json(&self) -> (r: JsonValue)
        ensures
            r@ == resource_json(self@),
    {
        proof { reveal_strlit("uri"); reveal_strlit("name"); reveal_strlit("title"); reveal_strlit("description"); reveal_strlit("mimeType"); }
        let mut m: Vec<(Vec<u8>, JsonValue)> = Vec::new();
        assert(jentries(m@) =~= seq![]);
        object_insert(&mut m, ascii_bytes("uri"), JsonValue::Str(to_vec(self.uri.as_slice())));
        object_insert(&mut m, ascii_bytes("name"), JsonValue::Str(to_vec(self.name.as_slice())));
        put_opt_str(&mut m, ascii_bytes("title"), &self.title);
        put_opt_str(&mut m, ascii_bytes("description"), &self.description);
        put_opt_str(&mut m, ascii_bytes("mimeType"), &self.mime_type);
        JsonValue::Object(m)
    }
}

/// An argument a prompt takes.
#[derive(Debug)]
pub struct PromptArgument {
    pub name: Vec<u8>,
    pub description: Option<Vec<u8>>,
    pub required: bool,
}

/// Model of a prompt argument.
pub struct ArgModel {
    pub name: Seq<u8>,
    pub description: Option<Seq<u8>>,
    pub required: bool,
}

/// What a JSON descriptor reads as a prompt argument: a string `name`,
/// an optional string `description`, and `required` (false unless a
/// boolean says otherwise).
pub open spec fn arg_of(v: JModel) -> Result<ArgModel, Seq<u8>> {
    if str_at(v, lit("name")) is None {
        Err(missing_msg())
    } else if opt_str_at(v, lit("description")) is Err {
        Err(wrong_type_msg())
    } else {
        Ok(
            ArgModel {
                name: str_at(v, lit("name"))->Some_0,
                description: opt_str_at(v, lit("description"))->Ok_0,
                required: jget(v, lit("required")) == Some(JModel::Bool(true)),
            },
        )
    }
}

impl PromptArgument {
    pub open spec fn view(&self) -> ArgModel {
        ArgModel { name: self.name@, description: sopt(self.description), required: self.required }
    }

    fn from_json(value: &JsonValue) -> (r: Result<PromptArgument, PrimitiveError>)
        ensures
            match r {
                Ok(x) => arg_of(value@) == Ok::<ArgModel, Seq<u8>>(x@),
                Err(e) => arg_of(value@) == Err::<ArgModel, Seq<u8>>(e.message@),
            },
    {
        proof { reveal_strlit("name"); reveal_strlit("description"); reveal_strlit("required"); }
        let name = required_string(value, ascii_bytes("name").as_slice())?;
        let description = optional_string(value, ascii_bytes("description").as_slice())?;
        let required = match value.get(ascii_bytes("required").as_slice()) {
            Some(v) => match v.as_bool() {
                Some(b) => b,
                None => false,
            },
            None => false,
        };
        Ok(PromptArgument { name, description, required })
    }

    pub fn duplicate(&self) -> (r: PromptArgument)
        ensures
            r@ == self@,
    {
        PromptArgument { name: to_vec(self.name.as_slice()), description: copy_opt(&self.description), required: self.required }
    }
}

/// Models of a list of prompt arguments.
pub open spec fn arg_views(s: Seq<PromptArgument>) -> Seq<ArgModel> {
    s.map_values(|a: PromptArgument| a@)
}

/// Prompt arguments read in order; the first failure stops the reading.
pub open spec fn args_of(vs: Seq<JModel>) -> Result<Seq<ArgModel>, Seq<u8>>
    decreases vs.len(),
{
    if vs.len() == 0 {
        Ok(seq![])
    } else {
        match args_of(vs.drop_last()) {
            Err(e) => Err(e),
            Ok(xs) => match arg_of(vs.last()) {
                Err(e) => Err(e),
                Ok(x) => Ok(xs.push(x)),
            },
        }
    }
}

proof fn lemma_args_err(vs: Seq<JModel>, k: int)
    requires
        0 <= k <= vs.len(),
        args_of(vs.subrange(0, k)) is Err,
    ensures
        args_of(vs) == args_of(vs.subrange(0, k)),
    decreases vs.len() - k,
{
    if k < vs.len() {
        assert(vs.subrange(0, k + 1).drop_last() =~= vs.subrange(0, k));
        lemma_args_err(vs, k + 1);
    } else {
        assert(vs.subrange(0, k) =~= vs);
    }
}

/// A prompt a server offers.
#[derive(Debug)]
pub struct Prompt {
    pub name: Vec<u8>,
    pub title: Option<Vec<u8>>,
    pub description: Option<Vec<u8>>,
    pub arguments: Vec<PromptArgument>,
}

/// Model of a prompt.
pub struct PromptModel {
    pub name: Seq<u8>,
    pub title: Option<Seq<u8>>,
    pub description: Option<Seq<u8>>,
    pub arguments: Seq<ArgModel>,
}

/// What a JSON descriptor reads as a prompt: its `arguments` (absent or
/// an array) are read first, then a string `name` and optional string
/// `title` and `description`.
pub open spec fn prompt_of(v: JModel) -> Result<PromptModel, Seq<u8>> {
    let args: Result<Seq<ArgModel>, Seq<u8>> = match jget(v, lit("arguments")) {
        None => Ok(seq![]),
        Some(JModel::Array(a)) => args_of(a),
        Some(_) => Err(lit("prompt arguments must be an array")),
    };
    match args {
        Err(e) => Err(e),
        Ok(arguments) => if str_at(v, lit("name")) is None {
            Err(missing_msg())
        } else if opt_str_at(v, lit("title")) is Err || opt_str_at(v, lit("description")) is Err {
            Err(wrong_type_msg())
        } else {
            Ok(
                PromptModel {
                    name: str_at(v, lit("name"))->Some_0,
                    title: opt_str_at(v, lit("title"))->Ok_0,
                    description: opt_str_at(v, lit("description"))->Ok_0,
                    arguments,
                },
            )
        },
    }
}

/// The JSON of a prompt argument.
pub open spec fn arg_json(a: ArgModel) -> JModel {
    JModel::Object(
        jinsert(
            put_opt(jinsert(seq![], lit("name"), JModel::Str(a.name)), lit("description"), str_opt(a.description)),
            lit("required"),
            JModel::Bool(a.required),
        ),
    )
}

/// The JSON of a prompt; `arguments` only when there are some.
pub open spec fn prompt_json(p: PromptModel) -> JModel {
    let m = put_opt(
        put_opt(jinsert(seq![], lit("name"), JModel::Str(p.name)), lit("title"), str_opt(p.title)),
        lit("description"),
        str_opt(p.description),
    );
    JModel::Object(
        if p.arguments.len() == 0 {
            m
        } else {
            jinsert(m, lit("arguments"), JModel::Array(p.arguments.map_values(|a: ArgModel| arg_json(a))))
        },
    )
}

impl Prompt {
    pub open spec fn view(&self) -> PromptModel {
        PromptModel {
            name: self.name@,
            title: sopt(self.title),
            description: sopt(self.description),
            arguments: arg_views(self.arguments@),
        }
    }

    pub fn duplicate(&self) -> (r: Prompt)
        ensures
            r@ == self@,
    {
        let mut args: Vec<PromptArgument> = Vec::new();
        let mut i: usize = 0;
        while i < self.arguments.len()
            invariant
                0 <= i <= self.arguments@.len(),
                arg_views(args@) =~= arg_views(self.arguments@.subrange(0, i as int)),
            decreases self.arguments.len() - i,
        {
            let d = self.arguments[i].duplicate();
            let ghost before = args@;
            args.push(d);
            proof {
                assert(args@ =~= before.push(d));
                assert(self.arguments@.subrange(0, i + 1) =~= self.arguments@.subrange(0, i as int).push(self.arguments@[i as int]));
                assert(arg_views(args@) =~= arg_views(before).push(d@));
            }
            i = i + 1;
        }
        assert(self.arguments@.subrange(0, i as int) =~= self.arguments@);
        Prompt {
            name: to_vec(self.name.as_slice()),
            title: copy_opt(&self.title),
            description: copy_opt(&self.description),
            arguments: args,
        }
    }

    pub fn from_json(value: &JsonValue) -> (r: Result<Prompt, PrimitiveError>)
        ensures
            match r {
                Ok(x) => prompt_of(value@) == Ok::<PromptModel, Seq<u8>>(x@),
                Err(e) => prompt_of(value@) == Err::<PromptModel, Seq<u8>>(e.message@),
            },
    {
        proof { reveal_strlit("arguments"); reveal_strlit("name"); reveal_strlit("title"); reveal_strlit("description"); reveal_strlit("prompt arguments must be an array"); }
        let mut arguments: Vec<PromptArgument> = Vec::new();
        match value.get(ascii_bytes("arguments").as_slice()) {
            None => {
                assert(arg_views(arguments@) =~= seq![]);
            },
            Some(JsonValue::Array(a)) => {
                let mut i: usize = 0;
                assert(arg_views(arguments@) =~= seq![]);
                while i < a.len()
                    invariant
                        0 <= i <= a@.len(),
                        args_of(crate::json::jviews(a@.subrange(0, i as int))) == Ok::<Seq<ArgModel>, Seq<u8>>(arg_views(arguments@)),
                        jget(value@, lit("arguments")) == Some(JModel::Array(crate::json::jviews(a@))),
                    decreases a.len() - i,
                {
                    proof {
                        crate::json::lemma_jviews_index(a@.subrange(0, i + 1), i as int);
                        assert(a@.subrange(0, i + 1).drop_last() =~= a@.subrange(0, i as int));
                        crate::json::lemma_jviews_len(a@.subrange(0, i + 1));
                    }
                    let ghost cur = crate::json::jviews(a@.subrange(0, i + 1));
                    proof {
                        assert(cur.drop_last() =~= crate::json::jviews(a@.subrange(0, i as int)));
                        assert(cur.last() == a@[i as int]@);
                    }
                    let x = match PromptArgument::from_json(&a[i]) {
                        Ok(x) => x,
                        Err(e) => {
                            proof {
                                crate::json::lemma_jviews_len(a@);
                                assert(crate::json::jviews(a@).subrange(0, i + 1) =~= cur) by {
                                    crate::json::lemma_jviews_len(a@);
                                    crate::json::lemma_jviews_len(a@.subrange(0, i + 1));
                                    assert forall|k: int| 0 <= k < i + 1 implies crate::json::jviews(a@)[k] == cur[k] by {
                                        crate::json::lemma_jviews_index(a@, k);
                                        crate::json::lemma_jviews_index(a@.subrange(0, i + 1), k);
                                    }
                                }
                                assert(args_of(cur) is Err);
                                lemma_args_err(crate::json::jviews(a@), i + 1);
                            }
                            return Err(e);
                        },
                    };
                    let ghost before = arguments@;
                    arguments.push(x);
                    assert(arg_views(arguments@) =~= arg_views(before).push(x@));
                    i = i + 1;
                }
                assert(a@.subrange(0, i as int) =~= a@);
            },
            Some(_) => return Err(PrimitiveError::new("prompt arguments must be an array")),
        }
        let name = required_string(value, ascii_bytes("name").as_slice())?;
        let title = optional_string(value, ascii_bytes("title").as_slice())?;
        let description = optional_string(value, ascii_bytes("description").as_slice())?;
        Ok(Prompt { name, title, description, arguments })
    }

    pub fn to_json(&self) -> (r: JsonValue)
        ensures
            r@ == prompt_json(self@),
    {
        proof { reveal_strlit("arguments"); reveal_strlit("name"); reveal_strlit("title"); reveal_strlit("description"); reveal_strlit("required"); }
        let mut m: Vec<(Vec<u8>, JsonValue)> = Vec::new();
        assert(jentries(m@) =~= seq![]);
        object_insert(&mut m, ascii_bytes("name"), JsonValue::Str(to_vec(self.name.as_slice())));
        put_opt_str(&mut m, ascii_bytes("title"), &self.title);
        put_opt_str(&mut m, ascii_bytes("description"), &self.description);
        if self.arguments.len() > 0 {
            let mut items: Vec<JsonValue> = Vec::new();
            let mut i: usize = 0;
            while i < self.arguments.len()
                invariant
                    0 <= i <= self.arguments@.len(),
                    crate::json::jviews(items@) == arg_views(self.arguments@.subrange(0, i as int)).map_values(|a: ArgModel| arg_json(a)),
                decreases self.arguments.len() - i,
            {
                proof { reveal_strlit("name"); reveal_strlit("description"); reveal_strlit("required"); }
                let a = &self.arguments[i];
                let mut e: Vec<(Vec<u8>, JsonValue)> = Vec::new();
                assert(jentries(e@) =~= seq![]);
                object_insert(&mut e, ascii_bytes("name"), JsonValue::Str(to_vec(a.name.as_slice())));
                put_opt_str(&mut e, ascii_bytes("description"), &a.description);
                object_insert(&mut e, ascii_bytes("required"), JsonValue::Bool(a.required));
                let ghost before = items@;
                let item = JsonValue::Object(e);
                assert(item@ == arg_json(a@));
                items.push(item);
                proof {
                    assert(items@.drop_last() =~= before);
                    assert(crate::json::jviews(items@) == crate::json::jviews(before).push(item@));
                    assert(arg_views(self.arguments@.subrange(0, i + 1)).map_values(|a: ArgModel| arg_json(a)) =~= arg_views(
                        self.arguments@.subrange(0, i as int),
                    ).map_values(|a: ArgModel| arg_json(a)).push(arg_json(a@)));
                }
                i = i + 1;
            }
            assert(self.arguments@.subrange(0, i as int) =~= self.arguments@);
            object_insert(&mut m, ascii_bytes("arguments"), JsonValue::Array(items));
        }
        JsonValue::Object(m)
    }
}


// ---------------------------------------------------------------------
// Listing pages
// ---------------------------------------------------------------------

/// One page of a listing.
pub struct Page<T> {
    pub items: Vec<T>,
    pub next_cursor: Option<Vec<u8>>,
    pub ttl_ms: Option<u64>,
    pub cache_scope: CacheScope,
}

/// Model of a page.
pub struct PageModel<M> {
    pub items: Seq<M>,
    pub next_cursor: Option<Seq<u8>>,
    pub ttl_ms: Option<u64>,
    pub cache_scope: CacheScope,
}

/// Tools read in order; the first failure stops the reading.
pub open spec fn tools_of(vs: Seq<JModel>) -> Result<Seq<ToolModel>, Seq<u8>>
    decreases vs.len(),
{
    if vs.len() == 0 {
        Ok(seq![])
    } else {
        match tools_of(vs.drop_last()) {
            Err(e) => Err(e),
            Ok(xs) => match tool_of(vs.last()) {
                Err(e) => Err(e),
                Ok(x) => Ok(xs.push(x)),
            },
        }
    }
}

/// Resources read in order; the first failure stops the reading.
pub open spec fn resources_of(vs: Seq<JModel>) -> Result<Seq<ResourceModel>, Seq<u8>>
    decreases vs.len(),
{
    if vs.len() == 0 {
        Ok(seq![])
    } else {
        match resources_of(vs.drop_last()) {
            Err(e) => Err(e),
            Ok(xs) => match resource_of(vs.last()) {
                Err(e) => Err(e),
                Ok(x) => Ok(xs.push(x)),
            },
        }
    }
}

/// Prompts read in order; the first failure stops the reading.
pub open spec fn prompts_of(vs: Seq<JModel>) -> Result<Seq<PromptModel>, Seq<u8>>
    decreases vs.len(),
{
    if vs.len() == 0 {
        Ok(seq![])
    } else {
        match prompts_of(vs.drop_last()) {
            Err(e) => Err(e),
            Ok(xs) => match prompt_of(vs.last()) {
                Err(e) => Err(e),
                Ok(x) => Ok(xs.push(x)),
            },
        }
    }
}

/// The time-to-live of a listing: `ttlMs` when it is a number written
/// without an exponent.
pub open spec fn page_ttl(result: JModel) -> Option<u64> {
    match jget(result, lit("ttlMs")) {
        Some(JModel::Number(t)) => num_ttl(t),
        _ => None,
    }
}

/// The cache scope name of a listing, when it is a string.
pub open spec fn scope_name(result: JModel) -> Option<Seq<u8>> {
    str_at(result, lit("cacheScope"))
}

/// A page around items already read: the next cursor must be a string if
/// present, and the cache scope a known one.
pub open spec fn page_with<M>(result: JModel, items: Result<Seq<M>, Seq<u8>>) -> Result<PageModel<M>, Seq<u8>> {
    match items {
        Err(e) => Err(e),
        Ok(items) => match opt_str_at(result, lit("nextCursor")) {
            Err(_) => Err(wrong_type_msg()),
            Ok(next_cursor) => match spec_cache_scope(scope_name(result)) {
                None => Err(lit("invalid MCP cacheScope")),
                Some(cache_scope) => Ok(PageModel { items, next_cursor, ttl_ms: page_ttl(result), cache_scope }),
            },
        },
    }
}

/// The message for a listing without its item array.
pub open spec fn no_items_msg() -> Seq<u8> {
    lit("list result is missing its item array")
}

pub open spec fn tool_page_of(result: JModel) -> Result<PageModel<ToolModel>, Seq<u8>> {
    match jget(result, lit("tools")) {
        Some(JModel::Array(vs)) => page_with(result, tools_of(vs)),
        _ => Err(no_items_msg()),
    }
}

pub open spec fn resource_page_of(result: JModel) -> Result<PageModel<ResourceModel>, Seq<u8>> {
    match jget(result, lit("resources")) {
        Some(JModel::Array(vs)) => page_with(result, resources_of(vs)),
        _ => Err(no_items_msg()),
    }
}

pub open spec fn prompt_page_of(result: JModel) -> Result<PageModel<PromptModel>, Seq<u8>> {
    match jget(result, lit("prompts")) {
        Some(JModel::Array(vs)) => page_with(result, prompts_of(vs)),
        _ => Err(no_items_msg()),
    }
}

pub open spec fn tool_views(s: Seq<Tool>) -> Seq<ToolModel> {
    s.map_values(|t: Tool| t@)
}

pub open spec fn resource_views(s: Seq<Resource>) -> Seq<ResourceModel> {
    s.map_values(|t: Resource| t@)
}

pub open spec fn prompt_views(s: Seq<Prompt>) -> Seq<PromptModel> {
    s.map_values(|t: Prompt| t@)
}

/// Reads the rest of a page: cursor, time-to-live and cache scope.
fn page_rest<T>(result: &JsonValue, items: Vec<T>) -> (r: Result<Page<T>, PrimitiveError>)
    ensures
        match r {
            Ok(p) => p.items == items && opt_str_at(result@, lit("nextCursor")) == Ok::<Option<Seq<u8>>, ()>(sopt(p.next_cursor))
                && p.ttl_ms == page_ttl(result@) && spec_cache_scope(scope_name(result@)) == Some(p.cache_scope),
            Err(e) => (opt_str_at(result@, lit("nextCursor")) is Err && e.message@ == wrong_type_msg()) || (
            opt_str_at(result@, lit("nextCursor")) is Ok && spec_cache_scope(scope_name(result@)) is None
                && e.message@ == lit("invalid MCP cacheScope")),
        },
{
    proof { reveal_strlit("ttlMs"); reveal_strlit("nextCursor"); reveal_strlit("cacheScope"); }
    let ttl_ms = match result.get(ascii_bytes("ttlMs").as_slice()) {
        Some(JsonValue::Number(t)) => number_ttl(t.as_slice()),
        _ => None,
    };
    let next_cursor = optional_string(result, ascii_bytes("nextCursor").as_slice())?;
    let scope_bytes = get_str(result, ascii_bytes("cacheScope").as_slice());
    let cache_scope = match &scope_bytes {
        Some(b) => CacheScope::from_name(Some(b.as_slice()))?,
        None => CacheScope::from_name(None)?,
    };
    Ok(Page { items, next_cursor, ttl_ms, cache_scope })
}

impl Page<Tool> {
    pub fn tools(result: &JsonValue) -> (r: Result<Page<Tool>, PrimitiveError>)
        ensures
            match r {
                Ok(p) => tool_page_of(result@) == Ok::<PageModel<ToolModel>, Seq<u8>>(
                    PageModel { items: tool_views(p.items@), next_cursor: sopt(p.next_cursor), ttl_ms: p.ttl_ms, cache_scope: p.cache_scope },
                ),
                Err(e) => tool_page_of(result@) == Err::<PageModel<ToolModel>, Seq<u8>>(e.message@),
            },
    {
        proof { reveal_strlit("tools"); reveal_strlit("list result is missing its item array"); }
        let vs = match result.get(ascii_bytes("tools").as_slice()) {
            Some(JsonValue::Array(vs)) => vs,
            _ => return Err(PrimitiveError::new("list result is missing its item array")),
        };
        let mut items: Vec<Tool> = Vec::new();
        let mut i: usize = 0;
        assert(tool_views(items@) =~= seq![]);
        assert(vs@.subrange(0, 0) =~= Seq::<JsonValue>::empty());
        assert(crate::json::jviews(vs@.subrange(0, 0)) =~= seq![]);
        while i < vs.len()
            invariant
                0 <= i <= vs@.len(),
                tools_of(crate::json::jviews(vs@.subrange(0, i as int))) == Ok::<Seq<ToolModel>, Seq<u8>>(tool_views(items@)),
                jget(result@, lit("tools")) == Some(JModel::Array(crate::json::jviews(vs@))),
            decreases vs.len() - i,
        {
            let ghost cur = crate::json::jviews(vs@.subrange(0, i + 1));
            proof {
                assert(vs@.subrange(0, i + 1).drop_last() =~= vs@.subrange(0, i as int));
                assert(cur.drop_last() =~= crate::json::jviews(vs@.subrange(0, i as int)));
                assert(cur.last() == vs@[i as int]@);
            }
            let x = match Tool::from_json(&vs[i]) {
                Ok(x) => x,
                Err(e) => {
                    proof {
                        crate::json::lemma_jviews_len(vs@);
                        assert(crate::json::jviews(vs@).subrange(0, i + 1) =~= cur) by {
                            crate::json::lemma_jviews_len(vs@.subrange(0, i + 1));
                            assert forall|k: int| 0 <= k < i + 1 implies crate::json::jviews(vs@)[k] == cur[k] by {
                                crate::json::lemma_jviews_index(vs@, k);
                                crate::json::lemma_jviews_index(vs@.subrange(0, i + 1), k);
                            }
                        }
                        lemma_tools_err(crate::json::jviews(vs@), i + 1);
                    }
                    return Err(e);
                },
            };
            let ghost before = items@;
            items.push(x);
            assert(tool_views(items@) =~= tool_views(before).push(x@));
            i = i + 1;
        }
        assert(vs@.subrange(0, i as int) =~= vs@);
        page_rest(result, items)
    }
}

impl Page<Resource> {
    pub fn resources(result: &JsonValue) -> (r: Result<Page<Resource>, PrimitiveError>)
        ensures
            match r {
                Ok(p) => resource_page_of(result@) == Ok::<PageModel<ResourceModel>, Seq<u8>>(
                    PageModel { items: resource_views(p.items@), next_cursor: sopt(p.next_cursor), ttl_ms: p.ttl_ms, cache_scope: p.cache_scope },
                ),
                Err(e) => resource_page_of(result@) == Err::<PageModel<ResourceModel>, Seq<u8>>(e.message@),
            },
    {
        proof { reveal_strlit("resources"); reveal_strlit("list result is missing its item array"); }
        let vs = match result.get(ascii_bytes("resources").as_slice()) {
            Some(JsonValue::Array(vs)) => vs,
            _ => return Err(PrimitiveError::new("list result is missing its item array")),
        };
        let mut items: Vec<Resource> = Vec::new();
        let mut i: usize = 0;
        assert(resource_views(items@) =~= seq![]);
        assert(vs@.subrange(0, 0) =~= Seq::<JsonValue>::empty());
        assert(crate::json::jviews(vs@.subrange(0, 0)) =~= seq![]);
        while i < vs.len()
            invariant
                0 <= i <= vs@.len(),
                resources_of(crate::json::jviews(vs@.subrange(0, i as int))) == Ok::<Seq<ResourceModel>, Seq<u8>>(resource_views(items@)),
                jget(result@, lit("resources")) == Some(JModel::Array(crate::json::jviews(vs@))),
            decreases vs.len() - i,
        {
            let ghost cur = crate::json::jviews(vs@.subrange(0, i + 1));
            proof {
                assert(vs@.subrange(0, i + 1).drop_last() =~= vs@.subrange(0, i as int));
                assert(cur.drop_last() =~= crate::json::jviews(vs@.subrange(0, i as int)));
                assert(cur.last() == vs@[i as int]@);
            }
            let x = match Resource::from_json(&vs[i]) {
                Ok(x) => x,
                Err(e) => {
                    proof {
                        crate::json::lemma_jviews_len(vs@);
                        assert(crate::json::jviews(vs@).subrange(0, i + 1) =~= cur) by {
                            crate::json::lemma_jviews_len(vs@.subrange(0, i + 1));
                            assert forall|k: int| 0 <= k < i + 1 implies crate::json::jviews(vs@)[k] == cur[k] by {
                                crate::json::lemma_jviews_index(vs@, k);
                                crate::json::lemma_jviews_index(vs@.subrange(0, i + 1), k);
                            }
                        }
                        lemma_resources_err(crate::json::jviews(vs@), i + 1);
                    }
                    return Err(e);
                },
            };
            let ghost before = items@;
            items.push(x);
            assert(resource_views(items@) =~= resource_views(before).push(x@));
            i = i + 1;
        }
        assert(vs@.subrange(0, i as int) =~= vs@);
        page_rest(result, items)
    }
}

impl Page<Prompt> {
    pub fn prompts(result: &JsonValue) -> (r: Result<Page<Prompt>, PrimitiveError>)
        ensures
            match r {
                Ok(p) => prompt_page_of(result@) == Ok::<PageModel<PromptModel>, Seq<u8>>(
                    PageModel { items: prompt_views(p.items@), next_cursor: sopt(p.next_cursor), ttl_ms: p.ttl_ms, cache_scope: p.cache_scope },
                ),
                Err(e) => prompt_page_of(result@) == Err::<PageModel<PromptModel>, Seq<u8>>(e.message@),
            },
    {
        proof { reveal_strlit("prompts"); reveal_strlit("list result is missing its item array"); }
        let vs = match result.get(ascii_bytes("prompts").as_slice()) {
            Some(JsonValue::Array(vs)) => vs,
            _ => return Err(PrimitiveError::new("list result is missing its item array")),
        };
        let mut items: Vec<Prompt> = Vec::new();
        let mut i: usize = 0;
        assert(prompt_views(items@) =~= seq![]);
        assert(vs@.subrange(0, 0) =~= Seq::<JsonValue>::empty());
        assert(crate::json::jviews(vs@.subrange(0, 0)) =~= seq![]);
        while i < vs.len()
            invariant
                0 <= i <= vs@.len(),
                prompts_of(crate::json::jviews(vs@.subrange(0, i as int))) == Ok::<Seq<PromptModel>, Seq<u8>>(prompt_views(items@)),
                jget(result@, lit("prompts")) == Some(JModel::Array(crate::json::jviews(vs@))),
            decreases vs.len() - i,
        {
            let ghost cur = crate::json::jviews(vs@.subrange(0, i + 1));
            proof {
                assert(vs@.subrange(0, i + 1).drop_last() =~= vs@.subrange(0, i as int));
                assert(cur.drop_last() =~= crate::json::jviews(vs@.subrange(0, i as int)));
                assert(cur.last() == vs@[i as int]@);
            }
            let x = match Prompt::from_json(&vs[i]) {
                Ok(x) => x,
                Err(e) => {
                    proof {
                        crate::json::lemma_jviews_len(vs@);
                        assert(crate::json::jviews(vs@).subrange(0, i + 1) =~= cur) by {
                            crate::json::lemma_jviews_len(vs@.subrange(0, i + 1));
                            assert forall|k: int| 0 <= k < i + 1 implies crate::json::jviews(vs@)[k] == cur[k] by {
                                crate::json::lemma_jviews_index(vs@, k);
                                crate::json::lemma_jviews_index(vs@.subrange(0, i + 1), k);
                            }
                        }
                        lemma_prompts_err(crate::json::jviews(vs@), i + 1);
                    }
                    return Err(e);
                },
            };
            let ghost before = items@;
            items.push(x);
            assert(prompt_views(items@) =~= prompt_views(before).push(x@));
            i = i + 1;
        }
        assert(vs@.subrange(0, i as int) =~= vs@);
        page_rest(result, items)
    }
}

proof fn lemma_tools_err(vs: Seq<JModel>, k: int)
    requires
        0 <= k <= vs.len(),
        tools_of(vs.subrange(0, k)) is Err,
    ensures
        tools_of(vs) == tools_of(vs.subrange(0, k)),
    decreases vs.len() - k,
{
    if k < vs.len() {
        assert(vs.subrange(0, k + 1).drop_last() =~= vs.subrange(0, k));
        lemma_tools_err(vs, k + 1);
    } else {
        assert(vs.subrange(0, k) =~= vs);
    }
}

proof fn lemma_resources_err(vs: Seq<JModel>, k: int)
    requires
        0 <= k <= vs.len(),
        resources_of(vs.subrange(0, k)) is Err,
    ensures
        resources_of(vs) == resources_of(vs.subrange(0, k)),
    decreases vs.len() - k,
{
    if k < vs.len() {
        assert(vs.subrange(0, k + 1).drop_last() =~= vs.subrange(0, k));
        lemma_resources_err(vs, k + 1);
    } else {
        assert(vs.subrange(0, k) =~= vs);
    }
}

proof fn lemma_prompts_err(vs: Seq<JModel>, k: int)
    requires
        0 <= k <= vs.len(),
        prompts_of(vs.subrange(0, k)) is Err,
    ensures
        prompts_of(vs) == prompts_of(vs.subrange(0, k)),
    decreases vs.len() - k,
{
    if k < vs.len() {
        assert(vs.subrange(0, k + 1).drop_last() =~= vs.subrange(0, k));
        lemma_prompts_err(vs, k + 1);
    } else {
        assert(vs.subrange(0, k) =~= vs);
    }
}


// ---------------------------------------------------------------------
// Catalogs
// ---------------------------------------------------------------------

/// Items listed in key order.
pub trait SortKey {
    spec fn skey(&self) -> Seq<u8>;

    fn key_bytes(&self) -> (r: &[u8])
        ensures
            r@ == self.skey(),
    ;
}

impl SortKey for Tool {
    open spec fn skey(&self) -> Seq<u8> {
        self.name@
    }

    fn key_bytes(&self) -> (r: &[u8]) {
        self.name.as_slice()
    }
}

impl SortKey for Resource {
    open spec fn skey(&self) -> Seq<u8> {
        self.uri@
    }

    fn key_bytes(&self) -> (r: &[u8]) {
        self.uri.as_slice()
    }
}

impl SortKey for Prompt {
    open spec fn skey(&self) -> Seq<u8> {
        self.name@
    }

    fn key_bytes(&self) -> (r: &[u8]) {
        self.name.as_slice()
    }
}

/// `x` placed into `s` after every item whose key is not greater.
pub open spec fn ins_by_key<T: SortKey>(s: Seq<T>, x: T) -> Seq<T>
    decreases s.len(),
{
    if s.len() == 0 {
        seq![x]
    } else if bytes_lt(x.skey(), s.last().skey()) {
        ins_by_key(s.drop_last(), x).push(s.last())
    } else {
        s.push(x)
    }
}

/// Items in key order; items with equal keys keep their order.
pub open spec fn sort_by_key<T: SortKey>(s: Seq<T>) -> Seq<T>
    decreases s.len(),
{
    if s.len() == 0 {
        s
    } else {
        ins_by_key(sort_by_key(s.drop_last()), s.last())
    }
}

proof fn lemma_ins_at<T: SortKey>(s: Seq<T>, x: T, j: int)
    requires
        0 <= j <= s.len(),
        forall|k: int| j <= k < s.len() ==> bytes_lt(x.skey(), #[trigger] s[k].skey()),
        j > 0 ==> !bytes_lt(x.skey(), s[j - 1].skey()),
    ensures
        ins_by_key(s, x) == s.subrange(0, j).push(x) + s.subrange(j, s.len() as int),
    decreases s.len(),
{
    if s.len() == 0 {
        assert(s.subrange(0, j).push(x) + s.subrange(j, s.len() as int) =~= seq![x]);
    } else if j == s.len() {
        assert(s.subrange(0, j).push(x) + s.subrange(j, s.len() as int) =~= s.push(x));
    } else {
        assert(bytes_lt(x.skey(), s[s.len() - 1].skey()));
        lemma_ins_at(s.drop_last(), x, j);
        assert(s.drop_last().subrange(0, j).push(x) + s.drop_last().subrange(j, s.len() - 1) + seq![s.last()]
            =~= s.subrange(0, j).push(x) + s.subrange(j, s.len() as int));
    }
}

/// Sorts items by key, keeping the order of equal keys.
fn sort_vec<T: SortKey>(v: &mut Vec<T>)
    ensures
        final(v)@ == sort_by_key(old(v)@),
{
    let ghost orig = v@;
    let n = v.len();
    let mut i: usize = 0;
    assert(orig.subrange(0, 0) =~= Seq::<T>::empty());
    assert(v@ =~= sort_by_key(orig.subrange(0, 0)) + orig.subrange(0, n as int));
    while i < n
        invariant
            0 <= i <= n,
            n == orig.len(),
            v@.len() == n,
            v@ == sort_by_key(orig.subrange(0, i as int)) + orig.subrange(i as int, n as int),
        decreases n - i,
    {
        let ghost sorted = sort_by_key(orig.subrange(0, i as int));
        proof {
            lemma_sort_len(orig.subrange(0, i as int));
        }
        let x = v.remove(i);
        assert(v@.subrange(0, i as int) =~= sorted);
        let mut j = i;
        while j > 0 && bytes_less(x.key_bytes(), v[j - 1].key_bytes())
            invariant
                0 <= j <= i,
                i < n,
                v@.len() == n - 1,
                v@.subrange(0, i as int) == sorted,
                forall|k: int| j <= k < i ==> bytes_lt(x.skey(), #[trigger] sorted[k].skey()),
            decreases j,
        {
            j = j - 1;
        }
        proof {
            lemma_ins_at(sorted, x, j as int);
        }
        let ghost before = v@;
        v.insert(j, x);
        proof {
            assert(orig.subrange(0, i + 1).drop_last() =~= orig.subrange(0, i as int));
            assert(orig.subrange(0, i + 1).last() == x);
            assert(sort_by_key(orig.subrange(0, i + 1)) == ins_by_key(sorted, x));
            assert(v@ =~= sort_by_key(orig.subrange(0, i + 1)) + orig.subrange(i + 1, n as int));
        }
        i = i + 1;
    }
    assert(orig.subrange(0, n as int) =~= orig);
    assert(v@ =~= sort_by_key(orig));
}

proof fn lemma_ins_len<T: SortKey>(s: Seq<T>, x: T)
    ensures
        ins_by_key(s, x).len() == s.len() + 1,
    decreases s.len(),
{
    if s.len() > 0 && bytes_lt(x.skey(), s.last().skey()) {
        lemma_ins_len(s.drop_last(), x);
    }
}

proof fn lemma_sort_len<T: SortKey>(s: Seq<T>)
    ensures
        sort_by_key(s).len() == s.len(),
    decreases s.len(),
{
    if s.len() > 0 {
        lemma_sort_len(s.drop_last());
        lemma_ins_len(sort_by_key(s.drop_last()), s.last());
    }
}

/// What one server offers.
#[derive(Debug)]
pub struct ServerCatalog {
    pub server_id: Vec<u8>,
    pub tools: Vec<Tool>,
    pub resources: Vec<Resource>,
    pub prompts: Vec<Prompt>,
    pub fetched_at_ms: u64,
    pub ttl_ms: Option<u64>,
    pub cache_scope: CacheScope,
}

/// Model of a server's catalog.
pub struct CatalogModel {
    pub server_id: Seq<u8>,
    pub tools: Seq<ToolModel>,
    pub resources: Seq<ResourceModel>,
    pub prompts: Seq<PromptModel>,
    pub fetched_at_ms: u64,
    pub ttl_ms: Option<u64>,
    pub cache_scope: CacheScope,
}

/// Items placed in key order by `key` (equal keys keep their order):
/// `x` goes after every item whose key is not greater.
pub open spec fn ins_by<A>(s: Seq<A>, x: A, key: spec_fn(A) -> Seq<u8>) -> Seq<A>
    decreases s.len(),
{
    if s.len() == 0 {
        seq![x]
    } else if bytes_lt(key(x), key(s.last())) {
        ins_by(s.drop_last(), x, key).push(s.last())
    } else {
        s.push(x)
    }
}

/// Items in the order of their keys; equal keys keep their order.
pub open spec fn sort_by<A>(s: Seq<A>, key: spec_fn(A) -> Seq<u8>) -> Seq<A>
    decreases s.len(),
{
    if s.len() == 0 {
        s
    } else {
        ins_by(sort_by(s.drop_last(), key), s.last(), key)
    }
}

proof fn lemma_ins_map<T: SortKey, A>(s: Seq<T>, x: T, f: spec_fn(T) -> A, key: spec_fn(A) -> Seq<u8>)
    requires
        forall|y: T| #[trigger] key(f(y)) == y.skey(),
    ensures
        ins_by_key(s, x).map_values(f) == ins_by(s.map_values(f), f(x), key),
    decreases s.len(),
{
    if s.len() > 0 {
        assert(s.map_values(f).drop_last() =~= s.drop_last().map_values(f));
        assert(s.map_values(f).last() == f(s.last()));
        assert(key(f(x)) == x.skey());
        assert(key(f(s.last())) == s.last().skey());
        if bytes_lt(x.skey(), s.last().skey()) {
            lemma_ins_map(s.drop_last(), x, f, key);
            assert(ins_by_key(s.drop_last(), x).push(s.last()).map_values(f) =~= ins_by_key(
                s.drop_last(),
                x,
            ).map_values(f).push(f(s.last())));
        } else {
            assert(s.push(x).map_values(f) =~= s.map_values(f).push(f(x)));
        }
    } else {
        assert(seq![x].map_values(f) =~= seq![f(x)]);
    }
}

proof fn lemma_sort_map<T: SortKey, A>(s: Seq<T>, f: spec_fn(T) -> A, key: spec_fn(A) -> Seq<u8>)
    requires
        forall|y: T| #[trigger] key(f(y)) == y.skey(),
    ensures
        sort_by_key(s).map_values(f) == sort_by(s.map_values(f), key),
    decreases s.len(),
{
    if s.len() > 0 {
        lemma_sort_map(s.drop_last(), f, key);
        assert(s.map_values(f).drop_last() =~= s.drop_last().map_values(f));
        assert(s.map_values(f).last() == f(s.last()));
        lemma_ins_map(sort_by_key(s.drop_last()), s.last(), f, key);
    } else {
        assert(s.map_values(f) =~= seq![]);
    }
}

pub open spec fn tool_key() -> spec_fn(ToolModel) -> Seq<u8> {
    |t: ToolModel| t.name
}

pub open spec fn resource_key() -> spec_fn(ResourceModel) -> Seq<u8> {
    |r: ResourceModel| r.uri
}

pub open spec fn prompt_key() -> spec_fn(PromptModel) -> Seq<u8> {
    |p: PromptModel| p.name
}

/// A catalog with tools and prompts in name order and resources in URI
/// order (equal keys keep their order).
pub open spec fn msorted(c: CatalogModel) -> CatalogModel {
    CatalogModel {
        tools: sort_by(c.tools, tool_key()),
        resources: sort_by(c.resources, resource_key()),
        prompts: sort_by(c.prompts, prompt_key()),
        ..c
    }
}

fn copy_tools(s: &Vec<Tool>) -> (r: Vec<Tool>)
    ensures
        tool_views(r@) == tool_views(s@),
{
    let mut out: Vec<Tool> = Vec::new();
    let mut i: usize = 0;
    while i < s.len()
        invariant
            0 <= i <= s@.len(),
            tool_views(out@) =~= tool_views(s@.subrange(0, i as int)),
        decreases s.len() - i,
    {
        let d = s[i].duplicate();
        let ghost before = out@;
        out.push(d);
        proof {
            assert(s@.subrange(0, i + 1) =~= s@.subrange(0, i as int).push(s@[i as int]));
            assert(tool_views(out@) =~= tool_views(before).push(d@));
        }
        i = i + 1;
    }
    assert(s@.subrange(0, i as int) =~= s@);
    out
}

fn copy_resources(s: &Vec<Resource>) -> (r: Vec<Resource>)
    ensures
        resource_views(r@) == resource_views(s@),
{
    let mut out: Vec<Resource> = Vec::new();
    let mut i: usize = 0;
    while i < s.len()
        invariant
            0 <= i <= s@.len(),
            resource_views(out@) =~= resource_views(s@.subrange(0, i as int)),
        decreases s.len() - i,
    {
        let d = s[i].duplicate();
        let ghost before = out@;
        out.push(d);
        proof {
            assert(s@.subrange(0, i + 1) =~= s@.subrange(0, i as int).push(s@[i as int]));
            assert(resource_views(out@) =~= resource_views(before).push(d@));
        }
        i = i + 1;
    }
    assert(s@.subrange(0, i as int) =~= s@);
    out
}

fn copy_prompts(s: &Vec<Prompt>) -> (r: Vec<Prompt>)
    ensures
        prompt_views(r@) == prompt_views(s@),
{
    let mut out: Vec<Prompt> = Vec::new();
    let mut i: usize = 0;
    while i < s.len()
        invariant
            0 <= i <= s@.len(),
            prompt_views(out@) =~= prompt_views(s@.subrange(0, i as int)),
        decreases s.len() - i,
    {
        let d = s[i].duplicate();
        let ghost before = out@;
        out.push(d);
        proof {
            assert(s@.subrange(0, i + 1) =~= s@.subrange(0, i as int).push(s@[i as int]));
            assert(prompt_views(out@) =~= prompt_views(before).push(d@));
        }
        i = i + 1;
    }
    assert(s@.subrange(0, i as int) =~= s@);
    out
}

impl ServerCatalog {
    pub open spec fn view(&self) -> CatalogModel {
        CatalogModel {
            server_id: self.server_id@,
            tools: tool_views(self.tools@),
            resources: resource_views(self.resources@),
            prompts: prompt_views(self.prompts@),
            fetched_at_ms: self.fetched_at_ms,
            ttl_ms: self.ttl_ms,
            cache_scope: self.cache_scope,
        }
    }

    /// An empty catalog for a server, never fetched.
    pub fn new(server_id: &[u8]) -> (r: ServerCatalog)
        ensures
            r@ == (CatalogModel {
                server_id: server_id@,
                tools: seq![],
                resources: seq![],
                prompts: seq![],
                fetched_at_ms: 0,
                ttl_ms: None,
                cache_scope: CacheScope::NoCache,
            }),
    {
        let r = ServerCatalog {
            server_id: to_vec(server_id),
            tools: Vec::new(),
            resources: Vec::new(),
            prompts: Vec::new(),
            fetched_at_ms: 0,
            ttl_ms: None,
            cache_scope: CacheScope::NoCache,
        };
        assert(tool_views(r.tools@) =~= seq![]);
        assert(resource_views(r.resources@) =~= seq![]);
        assert(prompt_views(r.prompts@) =~= seq![]);
        r
    }

    pub fn duplicate(&self) -> (r: ServerCatalog)
        ensures
            r@ == self@,
    {
        ServerCatalog {
            server_id: to_vec(self.server_id.as_slice()),
            tools: copy_tools(&self.tools),
            resources: copy_resources(&self.resources),
            prompts: copy_prompts(&self.prompts),
            fetched_at_ms: self.fetched_at_ms,
            ttl_ms: self.ttl_ms,
            cache_scope: self.cache_scope,
        }
    }

    /// Puts tools and prompts in name order and resources in URI order
    /// (equal keys keep their order).
    pub fn sort(&mut self)
        ensures
            final(self)@ == msorted(old(self)@),
    {
        sort_vec(&mut self.tools);
        sort_vec(&mut self.resources);
        sort_vec(&mut self.prompts);
        proof {
            let ft = |t: Tool| t@;
            let fr = |t: Resource| t@;
            let fp = |t: Prompt| t@;
            lemma_sort_map(old(self).tools@, ft, tool_key());
            lemma_sort_map(old(self).resources@, fr, resource_key());
            lemma_sort_map(old(self).prompts@, fp, prompt_key());
            assert(tool_views(old(self).tools@) =~= old(self).tools@.map_values(ft));
            assert(resource_views(old(self).resources@) =~= old(self).resources@.map_values(fr));
            assert(prompt_views(old(self).prompts@) =~= old(self).prompts@.map_values(fp));
            assert(tool_views(self.tools@) =~= self.tools@.map_values(ft));
            assert(resource_views(self.resources@) =~= self.resources@.map_values(fr));
            assert(prompt_views(self.prompts@) =~= self.prompts@.map_values(fp));
        }
    }

    /// Whether the catalog is still fresh at `now_ms`.
    pub fn is_fresh(&self, now_ms: u64) -> (r: bool)
        ensures
            r == spec_is_fresh(self.ttl_ms, self.fetched_at_ms, now_ms),
    {
        is_fresh(self.ttl_ms, self.fetched_at_ms, now_ms)
    }
}

/// A tool in the merged catalog: its server, exposed name and descriptor.
#[derive(Debug)]
pub struct CatalogTool {
    pub server_id: Vec<u8>,
    pub exposed_name: Vec<u8>,
    pub tool: Tool,
}

/// Model of a merged-catalog tool: server, exposed name, descriptor.
pub open spec fn ct_view(t: CatalogTool) -> (Seq<u8>, Seq<u8>, ToolModel) {
    (t.server_id@, t.exposed_name@, t.tool@)
}

pub open spec fn ct_views(s: Seq<CatalogTool>) -> Seq<(Seq<u8>, Seq<u8>, ToolModel)> {
    s.map_values(|t: CatalogTool| ct_view(t))
}

/// The merged catalog's tools for one server.
pub open spec fn server_tools(sid: Seq<u8>, tools: Seq<ToolModel>) -> Seq<(Seq<u8>, Seq<u8>, ToolModel)> {
    tools.map_values(|t: ToolModel| (sid, spec_namespaced(sid, t.name), t))
}

/// The merged catalog's tools: servers in id order, each server's tools
/// in its order.
pub open spec fn all_tools(s: Seq<(Seq<u8>, CatalogModel)>) -> Seq<(Seq<u8>, Seq<u8>, ToolModel)>
    decreases s.len(),
{
    if s.len() == 0 {
        seq![]
    } else {
        all_tools(s.drop_last()) + server_tools(s.last().0, s.last().1.tools)
    }
}

/// The first tool with a given name.
pub open spec fn tool_named(tools: Seq<ToolModel>, name: Seq<u8>) -> Option<ToolModel>
    decreases tools.len(),
{
    if tools.len() == 0 {
        None
    } else if tools[0].name == name {
        Some(tools[0])
    } else {
        tool_named(tools.drop_first(), name)
    }
}

/// What an exposed tool name resolves to: the server's id and the tool.
pub open spec fn resolve_spec(s: Seq<(Seq<u8>, CatalogModel)>, exposed: Seq<u8>) -> Option<(Seq<u8>, ToolModel)> {
    match spec_split_namespaced(exposed) {
        None => None,
        Some((sid, prim)) => match sget(s, sid) {
            None => None,
            Some(c) => match tool_named(c.tools, prim) {
                None => None,
                Some(t) => Some((c.server_id, t)),
            },
        },
    }
}

/// The merged, namespaced catalog of every server.
pub struct Catalog {
    servers: Vec<(Vec<u8>, ServerCatalog)>,
}

pub open spec fn catalog_model(c: ServerCatalog) -> CatalogModel {
    c@
}

impl Catalog {
    /// Servers in id order with their catalogs.
    pub closed spec fn view(&self) -> Seq<(Seq<u8>, CatalogModel)> {
        smap(pairs_view(self.servers@), |c: ServerCatalog| c@)
    }

    pub fn new() -> (r: Catalog)
        ensures
            r@ == Seq::<(Seq<u8>, CatalogModel)>::empty(),
    {
        let r = Catalog { servers: Vec::new() };
        assert(r@ =~= Seq::<(Seq<u8>, CatalogModel)>::empty());
        r
    }

    /// Sorts a server's catalog and puts it under its id, replacing any
    /// catalog held for that id.
    pub fn replace(&mut self, catalog: ServerCatalog)
        ensures
            final(self)@ == sinsert(old(self)@, catalog.server_id@, msorted(catalog@)),
    {
        let mut c = catalog;
        c.sort();
        let key = to_vec(c.server_id.as_slice());
        let ghost cv = c;
        sm_insert(&mut self.servers, key, c);
        proof {
            lemma_smap_sinsert(pairs_view(old(self).servers@), catalog.server_id@, cv, |c: ServerCatalog| c@);
        }
    }

    /// Takes a server's catalog out.
    pub fn remove(&mut self, server_id: &[u8]) -> (r: Option<ServerCatalog>)
        ensures
            final(self)@ == sremove(old(self)@, server_id@),
            match r {
                Some(c) => sget(old(self)@, server_id@) == Some(c@),
                None => sget(old(self)@, server_id@) is None,
            },
    {
        proof {
            lemma_smap_sremove(pairs_view(self.servers@), server_id@, |c: ServerCatalog| c@);
        }
        sm_remove(&mut self.servers, server_id)
    }

    /// A server's catalog.
    pub fn server(&self, server_id: &[u8]) -> (r: Option<&ServerCatalog>)
        ensures
            match r {
                Some(c) => sget(self@, server_id@) == Some(c@),
                None => sget(self@, server_id@) is None,
            },
    {
        proof {
            lemma_smap_sremove(pairs_view(self.servers@), server_id@, |c: ServerCatalog| c@);
        }
        sm_get(&self.servers, server_id)
    }

    pub fn server_count(&self) -> (r: usize)
        ensures
            r == self@.len(),
    {
        self.servers.len()
    }

    /// Every server's tools under their exposed names.
    pub fn tools(&self) -> (r: Vec<CatalogTool>)
        ensures
            ct_views(r@) == all_tools(self@),
    {
        let mut out: Vec<CatalogTool> = Vec::new();
        let mut i: usize = 0;
        let ghost sv = self@;
        assert(sv.subrange(0, 0) =~= Seq::<(Seq<u8>, CatalogModel)>::empty());
        assert(ct_views(out@) =~= seq![]);
        while i < self.servers.len()
            invariant
                0 <= i <= self.servers@.len(),
                sv == self@,
                sv.len() == self.servers@.len(),
                ct_views(out@) == all_tools(sv.subrange(0, i as int)),
            decreases self.servers.len() - i,
        {
            let sid = &self.servers[i].0;
            let cat = &self.servers[i].1;
            assert(sv[i as int] == (sid@, cat@));
            let ghost base = ct_views(out@);
            let mut k: usize = 0;
            while k < cat.tools.len()
                invariant
                    0 <= k <= cat.tools@.len(),
                    ct_views(out@) == base + server_tools(
                        sid@,
                        tool_views(cat.tools@.subrange(0, k as int)),
                    ),
                decreases cat.tools.len() - k,
            {
                let t = &cat.tools[k];
                let entry = CatalogTool {
                    server_id: to_vec(sid.as_slice()),
                    exposed_name: namespaced(sid.as_slice(), t.name.as_slice()),
                    tool: t.duplicate(),
                };
                let ghost before = out@;
                out.push(entry);
                proof {
                    assert(out@ =~= before.push(entry));
                    assert(ct_views(out@) =~= ct_views(before).push(ct_view(entry)));
                    assert(ct_view(entry) == (sid@, spec_namespaced(sid@, t.name@), t@));
                    assert(cat.tools@.subrange(0, k + 1) =~= cat.tools@.subrange(0, k as int).push(cat.tools@[k as int]));
                    assert(tool_views(cat.tools@.subrange(0, k + 1)) =~= tool_views(cat.tools@.subrange(0, k as int)).push(t@));
                    assert(ct_views(out@) =~= base + server_tools(
                        sid@,
                        tool_views(cat.tools@.subrange(0, k + 1)),
                    ));
                }
                k = k + 1;
            }
            proof {
                assert(cat.tools@.subrange(0, k as int) =~= cat.tools@);
                assert(sv.subrange(0, i + 1).drop_last() =~= sv.subrange(0, i as int));
                assert(sv.subrange(0, i + 1).last() == sv[i as int]);
            }
            i = i + 1;
        }
        assert(sv.subrange(0, i as int) =~= sv);
        out
    }

    /// The server id and tool that an exposed name stands for.
    pub fn resolve_tool(&self, exposed_name: &[u8]) -> (r: Option<(&[u8], &Tool)>)
        ensures
            match r {
                Some((sid, t)) => resolve_spec(self@, exposed_name@) == Some((sid@, t@)),
                None => resolve_spec(self@, exposed_name@) is None,
            },
    {
        let (server_id, primitive) = match split_namespaced(exposed_name) {
            Some(x) => x,
            None => return None,
        };
        proof {
            lemma_smap_sremove(pairs_view(self.servers@), server_id@, |c: ServerCatalog| c@);
        }
        let cat = match sm_get(&self.servers, server_id) {
            Some(c) => c,
            None => return None,
        };
        let ghost tv = tool_views(cat.tools@);
        let mut k: usize = 0;
        assert(tv.subrange(0, tv.len() as int) =~= tv);
        while k < cat.tools.len()
            invariant
                0 <= k <= cat.tools@.len(),
                tv == tool_views(cat.tools@),
                spec_split_namespaced(exposed_name@) == Some((server_id@, primitive@)),
                sget(self@, server_id@) == Some(cat@),
                tool_named(tv, primitive@) == tool_named(tv.subrange(k as int, tv.len() as int), primitive@),
            decreases cat.tools.len() - k,
        {
            let ghost rest = tv.subrange(k as int, tv.len() as int);
            assert(rest[0] == cat.tools@[k as int]@);
            assert(rest.drop_first() =~= tv.subrange(k + 1, tv.len() as int));
            if bytes_eq(cat.tools[k].name.as_slice(), primitive) {
                return Some((cat.server_id.as_slice(), &cat.tools[k]));
            }
            k = k + 1;
        }
        None
    }
}


/// Sorts items into key order (equal keys keep their order).
pub fn sort_items<T: SortKey>(v: &mut Vec<T>)
    ensures
        final(v)@ == sort_by_key(old(v)@),
{
    sort_vec(v);
}

} // verus!
