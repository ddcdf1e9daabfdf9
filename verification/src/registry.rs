//! The tool registry: the tools the model may call, with their
//! descriptions and parameters, and the manifest text shown to the model.

use vstd::prelude::*;

use crate::json::{
    empty_object, jentries, jget, jinsert, json_u64, object_insert, JModel, JsonValue,
};
use crate::text::{ascii_bytes, bytes_eq, dec, lit, push_all, to_vec};
use vstd::string::StringSliceAdditionalSpecFns;

verus! {

/// A tool's description for the manifest.
pub struct ToolSpec {
    pub name: &'static str,
    pub description: &'static str,
    pub params: &'static [(&'static str, &'static str)],
}

/// Error details of a failed tool call.
#[derive(Debug)]
pub struct ToolError {
    pub code: Vec<u8>,
    pub message: Vec<u8>,
    pub retryable: bool,
}

/// `name: description` of each parameter, separated by `, `.
pub open spec fn params_text(ps: Seq<(&'static str, &'static str)>) -> Seq<u8>
    decreases ps.len(),
{
    if ps.len() == 0 {
        seq![]
    } else if ps.len() == 1 {
        ps[0].0.spec_bytes() + lit(": ") + ps[0].1.spec_bytes()
    } else {
        params_text(ps.drop_last()) + lit(", ") + ps.last().0.spec_bytes() + lit(": ")
            + ps.last().1.spec_bytes()
    }
}

/// The manifest line of a tool.
pub open spec fn tool_line(t: ToolSpec) -> Seq<u8> {
    lit("- ") + t.name.spec_bytes() + lit(": ") + t.description.spec_bytes() + (if t.params@.len()
        == 0 {
        seq![]
    } else {
        lit(" (") + params_text(t.params@) + seq![41u8]
    }) + seq![10u8]
}

/// The manifest lines of a list of tools.
pub open spec fn tool_lines(ts: Seq<ToolSpec>) -> Seq<u8>
    decreases ts.len(),
{
    if ts.len() == 0 {
        seq![]
    } else {
        tool_lines(ts.drop_last()) + tool_line(ts.last())
    }
}

/// The manifest: a heading, one line per tool, and how to call a tool.
pub open spec fn spec_manifest(ts: Seq<ToolSpec>) -> Seq<u8> {
    lit("Available tools:\n") + tool_lines(ts) + lit(
        "\nTo call a tool, emit JSON: {\"tool\": \"name\", \"args\": {...}, \"call_id\": \"c1\"}\n",
    )
}

/// The first tool with this name.
pub open spec fn first_tool(ts: Seq<ToolSpec>, name: Seq<u8>) -> Option<ToolSpec>
    decreases ts.len(),
{
    if ts.len() == 0 {
        None
    } else if ts[0].name.spec_bytes() == name {
        Some(ts[0])
    } else {
        first_tool(ts.drop_first(), name)
    }
}

/// Names of the built-in tools, in registration order.
pub open spec fn default_tool_names() -> Seq<Seq<char>> {
    seq!["fs.read"@, "fs.write"@, "fs.list"@, "fs.delete"@, "net.fetch"@, "memory.facts_get"@, "memory.facts_set"@, "memory.log_turn"@, "memory.store"@, "memory.search"@, "memory.consolidate"@, "memory.forget"@, "memory.graph_add"@, "memory.graph_query"@, "memory.graph_invalidate"@, "memory.graph_timeline"@, "palace.create_wing"@, "palace.list_wings"@, "palace.find_tunnels"@, "sys.clock"@, "sys.introspect"@]
}

/// The built-in tools, in the order they are registered.
pub open spec fn default_tools() -> Seq<ToolSpec> {
    seq![
        ToolSpec { name: "fs.read", description: "Read file contents", params: &[("path", "file path")] },
        ToolSpec { name: "fs.write", description: "Write content to file", params: &[("path", "file path"), ("content", "data to write")] },
        ToolSpec { name: "fs.list", description: "List directory contents", params: &[("path", "directory path")] },
        ToolSpec { name: "fs.delete", description: "Delete a file", params: &[("path", "file path")] },
        ToolSpec { name: "net.fetch", description: "Fetch URL content (HTTP only)", params: &[("url", "URL to fetch")] },
        ToolSpec { name: "memory.facts_get", description: "Get all L1 facts from palace", params: &[] },
        ToolSpec { name: "memory.facts_set", description: "Set a fact in palace (with contradiction detection)", params: &[("key", "fact key"), ("value", "fact value")] },
        ToolSpec { name: "memory.log_turn", description: "Log a turn to the session journal", params: &[("data", "turn data as JSON")] },
        ToolSpec { name: "memory.store", description: "Store content in palace hall and index it", params: &[("content", "text to store"), ("wing", "wing name (default: general)"), ("hall", "hall name (default: discoveries)"), ("tags", "optional tags")] },
        ToolSpec { name: "memory.search", description: "Search palace memory by query", params: &[("query", "search query"), ("wing", "filter by wing"), ("hall", "filter by hall"), ("top_k", "max results (default: 5)")] },
        ToolSpec { name: "memory.consolidate", description: "Force consolidation: extract facts from recent journal entries", params: &[("n", "number of recent entries to scan (default: 20)")] },
        ToolSpec { name: "memory.forget", description: "Archive a memory entry, removing it from active palace", params: &[("entry_id", "entry ID (format: session:turn)")] },
        ToolSpec { name: "memory.graph_add", description: "Add a triple to the entity graph", params: &[("entity_a", "subject entity"), ("relation", "relationship"), ("entity_b", "object entity")] },
        ToolSpec { name: "memory.graph_query", description: "Query entity relationships (optionally at a point in time)", params: &[("entity", "entity to query"), ("as_of", "optional ISO 8601 timestamp")] },
        ToolSpec { name: "memory.graph_invalidate", description: "Invalidate a triple (set valid_until to now)", params: &[("entity_a", "subject"), ("relation", "relationship"), ("entity_b", "object")] },
        ToolSpec { name: "memory.graph_timeline", description: "Get chronological history of an entity", params: &[("entity", "entity to get timeline for")] },
        ToolSpec { name: "palace.create_wing", description: "Create a named wing (project or person) in the palace", params: &[("name", "wing name"), ("wing_type", "project or person")] },
        ToolSpec { name: "palace.list_wings", description: "List all wings in the palace", params: &[] },
        ToolSpec { name: "palace.find_tunnels", description: "Find cross-wing tunnels (shared halls between wings)", params: &[] },
        ToolSpec { name: "sys.clock", description: "Get current wall-clock time", params: &[] },
        ToolSpec { name: "sys.introspect", description: "Get system status (RAM, context, uptime)", params: &[] },
    ]
}

/// Maps tool names to their specs.
pub struct ToolRegistry {
    tools: Vec<ToolSpec>,
}

impl ToolRegistry {
    /// The registered tools, in order.
    pub closed spec fn view(&self) -> Seq<ToolSpec> {
        self.tools@
    }

    pub fn new() -> (r: Self)
        ensures
            r@ == Seq::<ToolSpec>::empty(),
    {
        ToolRegistry { tools: Vec::new() }
    }

    pub fn register(&mut self, spec: ToolSpec)
        ensures
            final(self)@ == old(self)@.push(spec),
    {
        self.tools.push(spec);
    }

    /// The first tool registered under a name.
    pub fn find(&self, name: &[u8]) -> (r: Option<&ToolSpec>)
        ensures
            match r {
                Some(t) => first_tool(self@, name@) == Some(*t),
                None => first_tool(self@, name@) is None,
            },
    {
        let ghost all = self@;
        let mut i: usize = 0;
        assert(all.subrange(0, all.len() as int) =~= all);
        while i < self.tools.len()
            invariant
                0 <= i <= self.tools@.len(),
                all == self@,
                first_tool(all, name@) == first_tool(all.subrange(i as int, all.len() as int), name@),
            decreases self.tools.len() - i,
        {
            let ghost rest = all.subrange(i as int, all.len() as int);
            assert(rest[0] == self.tools@[i as int]);
            assert(rest.drop_first() =~= all.subrange(i + 1, all.len() as int));
            if bytes_eq(self.tools[i].name.as_bytes(), name) {
                return Some(&self.tools[i]);
            }
            i = i + 1;
        }
        None
    }

    /// All registered tools.
    pub fn list(&self) -> (r: &[ToolSpec])
        ensures
            r@ == self@,
    {
        self.tools.as_slice()
    }

    /// The tool manifest for the system prompt.
    pub fn manifest(&self) -> (r: Vec<u8>)
        ensures
            r@ == spec_manifest(self@),
    {
        proof {
            reveal_strlit("Available tools:\n");
            reveal_strlit("- ");
            reveal_strlit(": ");
            reveal_strlit(" (");
            reveal_strlit(", ");
            reveal_strlit("\nTo call a tool, emit JSON: {\"tool\": \"name\", \"args\": {...}, \"call_id\": \"c1\"}\n");
        }
        let mut out = ascii_bytes("Available tools:\n");
        let dash = ascii_bytes("- ");
        let colon = ascii_bytes(": ");
        let open = ascii_bytes(" (");
        let comma = ascii_bytes(", ");
        let ghost all = self@;
        let ghost start = out@;
        let mut i: usize = 0;
        assert(all.subrange(0, 0) =~= seq![]);
        while i < self.tools.len()
            invariant
                0 <= i <= self.tools@.len(),
                all == self@,
                dash@ == lit("- "),
                colon@ == lit(": "),
                open@ == lit(" ("),
                comma@ == lit(", "),
                out@ == start + tool_lines(all.subrange(0, i as int)),
            decreases self.tools.len() - i,
        {
            let t = &self.tools[i];
            let ghost o0 = out@;
            push_all(&mut out, dash.as_slice());
            push_all(&mut out, t.name.as_bytes());
            push_all(&mut out, colon.as_slice());
            push_all(&mut out, t.description.as_bytes());
            if t.params.len() > 0 {
                push_all(&mut out, open.as_slice());
                let ghost o1 = out@;
                let mut j: usize = 0;
                while j < t.params.len()
                    invariant
                        0 <= j <= t.params@.len(),
                        colon@ == lit(": "),
                        comma@ == lit(", "),
                        out@ == o1 + params_text(t.params@.subrange(0, j as int)),
                    decreases t.params.len() - j,
                {
                    let ghost o2 = out@;
                    if j > 0 {
                        push_all(&mut out, comma.as_slice());
                    }
                    let (pn, pd) = t.params[j];
                    push_all(&mut out, pn.as_bytes());
                    push_all(&mut out, colon.as_slice());
                    push_all(&mut out, pd.as_bytes());
                    proof {
                        let ps = t.params@.subrange(0, j + 1);
                        assert(ps.drop_last() =~= t.params@.subrange(0, j as int));
                        if j == 0 {
                            assert(t.params@.subrange(0, 0) =~= seq![]);
                        }
                        assert(out@ =~= o1 + params_text(ps));
                    }
                    j = j + 1;
                }
                assert(t.params@.subrange(0, j as int) =~= t.params@);
                out.push(41);
            }
            out.push(10);
            proof {
                assert(all.subrange(0, i + 1).drop_last() =~= all.subrange(0, i as int));
                assert(out@ =~= o0 + tool_line(*t));
            }
            i = i + 1;
        }
        assert(all.subrange(0, i as int) =~= all);
        push_all(
            &mut out,
            ascii_bytes(
                "\nTo call a tool, emit JSON: {\"tool\": \"name\", \"args\": {...}, \"call_id\": \"c1\"}\n",
            ).as_slice(),
        );
        out
    }

    /// The registry of built-in tools.
    pub fn default_registry() -> (r: Self)
        ensures
            r@ == default_tools(),
            r@.map_values(|t: ToolSpec| t.name@) == default_tool_names(),
    {
        let mut reg = ToolRegistry::new();
        reg.register(ToolSpec { name: "fs.read", description: "Read file contents", params: &[("path", "file path")] });
        reg.register(ToolSpec { name: "fs.write", description: "Write content to file", params: &[("path", "file path"), ("content", "data to write")] });
        reg.register(ToolSpec { name: "fs.list", description: "List directory contents", params: &[("path", "directory path")] });
        reg.register(ToolSpec { name: "fs.delete", description: "Delete a file", params: &[("path", "file path")] });
        reg.register(ToolSpec { name: "net.fetch", description: "Fetch URL content (HTTP only)", params: &[("url", "URL to fetch")] });
        reg.register(ToolSpec { name: "memory.facts_get", description: "Get all L1 facts from palace", params: &[] });
        reg.register(ToolSpec { name: "memory.facts_set", description: "Set a fact in palace (with contradiction detection)", params: &[("key", "fact key"), ("value", "fact value")] });
        reg.register(ToolSpec { name: "memory.log_turn", description: "Log a turn to the session journal", params: &[("data", "turn data as JSON")] });
        reg.register(ToolSpec { name: "memory.store", description: "Store content in palace hall and index it", params: &[("content", "text to store"), ("wing", "wing name (default: general)"), ("hall", "hall name (default: discoveries)"), ("tags", "optional tags")] });
        reg.register(ToolSpec { name: "memory.search", description: "Search palace memory by query", params: &[("query", "search query"), ("wing", "filter by wing"), ("hall", "filter by hall"), ("top_k", "max results (default: 5)")] });
        reg.register(ToolSpec { name: "memory.consolidate", description: "Force consolidation: extract facts from recent journal entries", params: &[("n", "number of recent entries to scan (default: 20)")] });
        reg.register(ToolSpec { name: "memory.forget", description: "Archive a memory entry, removing it from active palace", params: &[("entry_id", "entry ID (format: session:turn)")] });
        reg.register(ToolSpec { name: "memory.graph_add", description: "Add a triple to the entity graph", params: &[("entity_a", "subject entity"), ("relation", "relationship"), ("entity_b", "object entity")] });
        reg.register(ToolSpec { name: "memory.graph_query", description: "Query entity relationships (optionally at a point in time)", params: &[("entity", "entity to query"), ("as_of", "optional ISO 8601 timestamp")] });
        reg.register(ToolSpec { name: "memory.graph_invalidate", description: "Invalidate a triple (set valid_until to now)", params: &[("entity_a", "subject"), ("relation", "relationship"), ("entity_b", "object")] });
        reg.register(ToolSpec { name: "memory.graph_timeline", description: "Get chronological history of an entity", params: &[("entity", "entity to get timeline for")] });
        reg.register(ToolSpec { name: "palace.create_wing", description: "Create a named wing (project or person) in the palace", params: &[("name", "wing name"), ("wing_type", "project or person")] });
        reg.register(ToolSpec { name: "palace.list_wings", description: "List all wings in the palace", params: &[] });
        reg.register(ToolSpec { name: "palace.find_tunnels", description: "Find cross-wing tunnels (shared halls between wings)", params: &[] });
        reg.register(ToolSpec { name: "sys.clock", description: "Get current wall-clock time", params: &[] });
        reg.register(ToolSpec { name: "sys.introspect", description: "Get system status (RAM, context, uptime)", params: &[] });
        assert(reg@ =~= default_tools());
        assert(reg@.map_values(|t: ToolSpec| t.name@) =~= default_tool_names());
        reg
    }
}


/// A tool call read from model output.
#[derive(Debug)]
pub struct ToolCall {
    pub tool: Vec<u8>,
    pub args: JsonValue,
    pub call_id: Vec<u8>,
    pub session_id: Vec<u8>,
}

impl ToolCall {
    /// Reads a call from a parsed object: `tool` must be a string; `args`
    /// defaults to an empty object and `call_id` to `auto`.
    pub fn from_json(val: &JsonValue, session_id: &[u8]) -> (r: Option<ToolCall>)
        ensures
            match r {
                Some(c) => {
                    &&& val@ is Object
                    &&& jget(val@, lit("tool")) == Some(JModel::Str(c.tool@))
                    &&& c.args@ == (match jget(val@, lit("args")) {
                        Some(a) => a,
                        None => JModel::Object(seq![]),
                    })
                    &&& c.call_id@ == (match jget(val@, lit("call_id")) {
                        Some(JModel::Str(s)) => s,
                        _ => lit("auto"),
                    })
                    &&& c.session_id@ == session_id@
                },
                None => !(val@ is Object) || !(jget(val@, lit("tool")) matches Some(JModel::Str(_))),
            },
    {
        if val.as_object().is_none() {
            return None;
        }
        proof { reveal_strlit("tool"); reveal_strlit("args"); reveal_strlit("call_id"); reveal_strlit("auto"); }
        let tool = match val.get(ascii_bytes("tool").as_slice()) {
            Some(t) => match t.as_str() {
                Some(s) => to_vec(s),
                None => return None,
            },
            None => return None,
        };
        let args = match val.get(ascii_bytes("args").as_slice()) {
            Some(a) => a.duplicate(),
            None => empty_object(),
        };
        let call_id = match val.get(ascii_bytes("call_id").as_slice()) {
            Some(c) => match c.as_str() {
                Some(s) => to_vec(s),
                None => ascii_bytes("auto"),
            },
            None => ascii_bytes("auto"),
        };
        Some(ToolCall { tool, args, call_id, session_id: to_vec(session_id) })
    }
}

/// The outcome of running a tool.
#[derive(Debug)]
pub struct ToolResult {
    pub call_id: Vec<u8>,
    pub ok: bool,
    pub result: JsonValue,
    pub error: Option<ToolError>,
    pub elapsed_ms: u64,
}

/// Model of a tool result: call id, success, result, error (code,
/// message, retryability) and elapsed time.
pub struct ResultModel {
    pub call_id: Seq<u8>,
    pub ok: bool,
    pub result: JModel,
    pub error: Option<(Seq<u8>, Seq<u8>, bool)>,
    pub elapsed_ms: u64,
}

impl View for ToolResult {
    type V = ResultModel;

    open spec fn view(&self) -> ResultModel {
        ResultModel {
            call_id: self.call_id@,
            ok: self.ok,
            result: self.result@,
            error: match self.error {
                Some(e) => Some((e.code@, e.message@, e.retryable)),
                None => None,
            },
            elapsed_ms: self.elapsed_ms,
        }
    }
}

/// A successful result.
pub open spec fn success_model(call_id: Seq<u8>, result: JModel, elapsed_ms: u64) -> ResultModel {
    ResultModel { call_id, ok: true, result, error: None, elapsed_ms }
}

/// A failed result.
pub open spec fn failure_model(call_id: Seq<u8>, code: Seq<u8>, message: Seq<u8>, retryable: bool) -> ResultModel {
    ResultModel { call_id, ok: false, result: JModel::Null, error: Some((code, message, retryable)), elapsed_ms: 0 }
}

/// The JSON form of a tool's error.
pub open spec fn tool_error_json(code: Seq<u8>, message: Seq<u8>, retryable: bool) -> JModel {
    JModel::Object(
        jinsert(
            jinsert(jinsert(seq![], lit("code"), JModel::Str(code)), lit("message"), JModel::Str(message)),
            lit("retryable"),
            JModel::Bool(retryable),
        ),
    )
}

/// The JSON form of a tool result: `call_id`, `ok`, the `result` when it
/// succeeded, the `error` when there is one, and `elapsed_ms`.
pub open spec fn tool_result_json(
    call_id: Seq<u8>,
    ok: bool,
    result: JModel,
    error: Option<(Seq<u8>, Seq<u8>, bool)>,
    elapsed_ms: u64,
) -> JModel {
    let m0 = jinsert(jinsert(seq![], lit("call_id"), JModel::Str(call_id)), lit("ok"), JModel::Bool(ok));
    let m1 = if ok {
        jinsert(m0, lit("result"), result)
    } else {
        m0
    };
    let m2 = match error {
        Some((c, m, r)) => jinsert(m1, lit("error"), tool_error_json(c, m, r)),
        None => m1,
    };
    JModel::Object(jinsert(m2, lit("elapsed_ms"), JModel::Number(dec(elapsed_ms as nat))))
}

impl ToolResult {
    pub fn success(call_id: &[u8], result: JsonValue, elapsed_ms: u64) -> (r: ToolResult)
        ensures
            r@ == success_model(call_id@, result@, elapsed_ms),
            r.call_id@ == call_id@,
            r.ok,
            r.result@ == result@,
            r.error is None,
            r.elapsed_ms == elapsed_ms,
    {
        ToolResult { call_id: to_vec(call_id), ok: true, result, error: None, elapsed_ms }
    }

    pub fn failure(call_id: &[u8], code: &[u8], message: &[u8], retryable: bool) -> (r: ToolResult)
        ensures
            r@ == failure_model(call_id@, code@, message@, retryable),
            r.call_id@ == call_id@,
            !r.ok,
            r.result@ == JModel::Null,
            r.error matches Some(e) && e.code@ == code@ && e.message@ == message@ && e.retryable
                == retryable,
            r.elapsed_ms == 0,
    {
        ToolResult {
            call_id: to_vec(call_id),
            ok: false,
            result: JsonValue::Null,
            error: Some(ToolError { code: to_vec(code), message: to_vec(message), retryable }),
            elapsed_ms: 0,
        }
    }

    /// The result as JSON, as shown to the model.
    pub fn to_json(&self) -> (r: JsonValue)
        ensures
            r@ == tool_result_json(
                self.call_id@,
                self.ok,
                self.result@,
                match self.error {
                    Some(e) => Some((e.code@, e.message@, e.retryable)),
                    None => None,
                },
                self.elapsed_ms,
            ),
    {
        let mut m: Vec<(Vec<u8>, JsonValue)> = Vec::new();
        assert(jentries(m@) =~= seq![]);
        proof { reveal_strlit("call_id"); }
        object_insert(&mut m, ascii_bytes("call_id"), JsonValue::Str(to_vec(self.call_id.as_slice())));
        proof { reveal_strlit("ok"); }
        object_insert(&mut m, ascii_bytes("ok"), JsonValue::Bool(self.ok));
        if self.ok {
            proof { reveal_strlit("result"); }
            object_insert(&mut m, ascii_bytes("result"), self.result.duplicate());
        }
        match &self.error {
            Some(err) => {
                let mut em: Vec<(Vec<u8>, JsonValue)> = Vec::new();
                assert(jentries(em@) =~= seq![]);
                proof { reveal_strlit("code"); reveal_strlit("message"); reveal_strlit("retryable"); }
                object_insert(&mut em, ascii_bytes("code"), JsonValue::Str(to_vec(err.code.as_slice())));
                object_insert(&mut em, ascii_bytes("message"), JsonValue::Str(to_vec(err.message.as_slice())));
                object_insert(&mut em, ascii_bytes("retryable"), JsonValue::Bool(err.retryable));
                proof { reveal_strlit("error"); }
                object_insert(&mut m, ascii_bytes("error"), JsonValue::Object(em));
            },
            None => {},
        }
        proof { reveal_strlit("elapsed_ms"); }
        object_insert(&mut m, ascii_bytes("elapsed_ms"), json_u64(self.elapsed_ms));
        JsonValue::Object(m)
    }
}

} // verus!
