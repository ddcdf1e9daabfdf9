//! The MCP bridge's protocol logic: the loopback HTTP front (request
//! heads, origin and routing-header checks, response framing) and the
//! adaptation of stdio servers, modern or legacy, behind it. The host
//! owns the sockets and the child process.

use vstd::prelude::*;

use crate::json::{
    empty_object, jentries, jget, jinsert, jparse, jremove, object_insert, object_remove, parse_checked, str_at, JModel,
    JsonValue, PStep,
};
use crate::mcp_wire::{
    err_model, request_of, response_of, rid_json, McpError, RequestId, RidModel, RpcRequest, RpcResponse,
    CLIENT_VERSION, LATEST_PROTOCOL_VERSION,
};
use crate::mcp_server::request_version;
use crate::sorted_map::{pairs_view, sget, sinsert, sm_get, sm_insert, smap, lemma_smap_sinsert, lemma_smap_sremove};
use crate::web::{utrim, utrim_bytes};
use crate::text::{
    all_digits, ascii_bytes, bytes_eq, digits_value, find, find_byte, find_sub, find_sub_from, is_space, is_utf8,
    lemma_find_from, lemma_find_sub_from, lines, lit, lower_seq, parse_digits, push_all, push_dec, split_first_line,
    to_vec,
};

verus! {

/// The largest request body the bridge accepts (4 MiB).
pub const MAX_REQUEST_BYTES: usize = 4194304;

/// The largest stdio response the bridge reads (4 MiB).
pub const MAX_RESPONSE_BYTES: usize = 4194304;

/// The first position of `needle` in `haystack`.
pub fn find_bytes(haystack: &[u8], needle: &[u8]) -> (r: Option<usize>)
    requires
        needle@.len() > 0,
    ensures
        match r {
            Some(i) => find_sub_from(haystack@, needle@, 0) == Some(i as int),
            None => find_sub_from(haystack@, needle@, 0) is None,
        },
{
    find_sub(haystack, needle, 0)
}

/// Where the run of non-space bytes from `i` ends.
pub open spec fn word_end(s: Seq<u8>, i: int) -> int
    decreases s.len() - i,
{
    if i < 0 || i >= s.len() || is_space(s[i]) {
        i
    } else {
        word_end(s, i + 1)
    }
}

/// The first non-space position at or after `i`.
pub open spec fn space_end(s: Seq<u8>, i: int) -> int
    decreases s.len() - i,
{
    if i < 0 || i >= s.len() || !is_space(s[i]) {
        i
    } else {
        space_end(s, i + 1)
    }
}

proof fn lemma_word_end(s: Seq<u8>, i: int)
    requires
        0 <= i <= s.len(),
    ensures
        i <= word_end(s, i) <= s.len(),
        forall|k: int| i <= k < word_end(s, i) ==> !is_space(#[trigger] s[k]),
        word_end(s, i) < s.len() ==> is_space(s[word_end(s, i)]),
    decreases s.len() - i,
{
    if i < s.len() && !is_space(s[i]) {
        lemma_word_end(s, i + 1);
    }
}

proof fn lemma_space_end(s: Seq<u8>, i: int)
    requires
        0 <= i <= s.len(),
    ensures
        i <= space_end(s, i) <= s.len(),
        space_end(s, i) < s.len() ==> !is_space(s[space_end(s, i)]),
    decreases s.len() - i,
{
    if i < s.len() && is_space(s[i]) {
        lemma_space_end(s, i + 1);
    }
}

/// The whitespace-separated words of `s` from position `i`.
pub open spec fn words_from(s: Seq<u8>, i: int) -> Seq<Seq<u8>>
    decreases s.len() - i,
{
    if i < 0 || i >= s.len() {
        seq![]
    } else {
        let j = space_end(s, i);
        if j >= s.len() || j < i {
            seq![]
        } else {
            let e = word_end(s, j);
            if e <= j || e > s.len() {
                seq![]
            } else {
                seq![s.subrange(j, e)] + words_from(s, e)
            }
        }
    }
}

/// The whitespace-separated words of a line.
pub open spec fn words(s: Seq<u8>) -> Seq<Seq<u8>> {
    words_from(s, 0)
}

/// Splits a line into its whitespace-separated words.
pub fn split_words(s: &[u8]) -> (r: Vec<&[u8]>)
    ensures
        r@.map_values(|w: &[u8]| w@) == words(s@),
{
    let n = s.len();
    let mut out: Vec<&[u8]> = Vec::new();
    let mut i: usize = 0;
    assert(out@.map_values(|w: &[u8]| w@) + words_from(s@, 0) =~= words(s@));
    while i < n
        invariant
            0 <= i <= n,
            n == s@.len(),
            words(s@) == out@.map_values(|w: &[u8]| w@) + words_from(s@, i as int),
        decreases n - i,
    {
        proof {
            lemma_space_end(s@, i as int);
        }
        let mut j = i;
        while j < n && is_space_byte(s[j])
            invariant
                i <= j <= n,
                n == s@.len(),
                space_end(s@, i as int) == space_end(s@, j as int),
            decreases n - j,
        {
            j = j + 1;
        }
        if j >= n {
            assert(words_from(s@, i as int) =~= seq![]);
            i = n;
        } else {
            proof {
                lemma_word_end(s@, j as int);
            }
            let mut e = j;
            while e < n && !is_space_byte(s[e])
                invariant
                    j <= e <= n,
                    n == s@.len(),
                    word_end(s@, j as int) == word_end(s@, e as int),
                decreases n - e,
            {
                e = e + 1;
            }
            let w = vstd::slice::slice_subrange(s, j, e);
            let ghost o0 = out@;
            out.push(w);
            assert(out@.map_values(|w: &[u8]| w@) =~= o0.map_values(|w: &[u8]| w@).push(w@));
            assert(space_end(s@, i as int) == j);
            assert(word_end(s@, j as int) == e);
            assert(words_from(s@, i as int) == seq![w@] + words_from(s@, e as int));
            assert(o0.map_values(|w: &[u8]| w@) + (seq![w@] + words_from(s@, e as int)) =~= out@.map_values(
                |w: &[u8]| w@,
            ) + words_from(s@, e as int));
            i = e;
        }
    }
    assert(words_from(s@, n as int) =~= seq![]);
    assert(out@.map_values(|w: &[u8]| w@) + seq![] =~= out@.map_values(|w: &[u8]| w@));
    out
}

fn is_space_byte(b: u8) -> (r: bool)
    ensures
        r == is_space(b),
{
    b == 32 || (9 <= b && b <= 13)
}

/// A header line: its lower-cased, trimmed name and trimmed value, split
/// at the first `:`.
pub open spec fn header_line(l: Seq<u8>) -> Option<(Seq<u8>, Seq<u8>)> {
    match find(l, 58) {
        Some(i) => Some((lower_seq(utrim(l.subrange(0, i))), utrim(l.subrange(i + 1, l.len() as int)))),
        None => None,
    }
}

/// The headers of a list of header lines (a later header replaces an
/// earlier one of the same name); `None` when a line is malformed.
pub open spec fn header_map(ls: Seq<Seq<u8>>) -> Option<Seq<(Seq<u8>, Seq<u8>)>>
    decreases ls.len(),
{
    if ls.len() == 0 {
        Some(seq![])
    } else {
        match header_map(ls.drop_last()) {
            None => None,
            Some(m) => match header_line(ls.last()) {
                None => None,
                Some((k, v)) => Some(sinsert(m, k, v)),
            },
        }
    }
}

/// A `usize` written in decimal, with an optional leading `+`.
pub open spec fn usize_text(v: Seq<u8>) -> Option<nat> {
    let d = if v.len() > 0 && v[0] == 43 {
        v.drop_first()
    } else {
        v
    };
    if d.len() > 0 && all_digits(d) && digits_value(d) <= usize::MAX {
        Some(digits_value(d))
    } else {
        None
    }
}

/// What a request head (the bytes before the blank line) reads as:
/// method, path, headers and body length, or why it is refused.
pub open spec fn head_spec(text: Seq<u8>) -> Result<(Seq<u8>, Seq<u8>, Seq<(Seq<u8>, Seq<u8>)>, nat), Seq<u8>> {
    if !vstd::utf8::valid_utf8(text) {
        Err(lit("request headers must be UTF-8"))
    } else if lines(text).len() == 0 {
        Err(lit("request line is missing"))
    } else {
        let ws = words(lines(text)[0]);
        if ws.len() < 1 {
            Err(lit("HTTP method is missing"))
        } else if ws.len() < 2 {
            Err(lit("HTTP path is missing"))
        } else if ws.len() != 3 || ws[2] != lit("HTTP/1.1") {
            Err(lit("expected HTTP/1.1 request"))
        } else {
            match header_map(lines(text).drop_first()) {
                None => Err(lit("malformed HTTP header")),
                Some(m) => match sget(m, lit("content-length")) {
                    None => Ok((ws[0], ws[1], m, 0)),
                    Some(v) => match usize_text(v) {
                        None => Err(lit("invalid Content-Length")),
                        Some(n) => if n > MAX_REQUEST_BYTES {
                            Err(lit("request body exceeded 4 MiB"))
                        } else {
                            Ok((ws[0], ws[1], m, n))
                        },
                    },
                },
            }
        }
    }
}

/// Model of a header list: names and values.
pub open spec fn hmap(h: Seq<(Vec<u8>, Vec<u8>)>) -> Seq<(Seq<u8>, Seq<u8>)> {
    smap(pairs_view(h), |v: Vec<u8>| v@)
}

/// The head of an HTTP request to the bridge.
#[derive(Debug)]
pub struct IncomingHead {
    pub method: Vec<u8>,
    pub path: Vec<u8>,
    /// Lower-cased names, in name order.
    pub headers: Vec<(Vec<u8>, Vec<u8>)>,
    pub content_length: usize,
}

fn lowercase(s: &[u8]) -> (r: Vec<u8>)
    ensures
        r@ == lower_seq(s@),
{
    let mut out: Vec<u8> = Vec::new();
    let mut i: usize = 0;
    while i < s.len()
        invariant
            0 <= i <= s@.len(),
            out@ == lower_seq(s@.subrange(0, i as int)),
        decreases s.len() - i,
    {
        out.push(crate::text::to_lower_byte(s[i]));
        i = i + 1;
        assert(out@ =~= lower_seq(s@.subrange(0, i as int)));
    }
    assert(s@.subrange(0, i as int) =~= s@);
    out
}

fn parse_header_line(l: &[u8]) -> (r: Option<(Vec<u8>, Vec<u8>)>)
    ensures
        match r {
            Some((k, v)) => header_line(l@) == Some((k@, v@)),
            None => header_line(l@) is None,
        },
{
    proof {
        lemma_find_from(l@, 58, 0);
    }
    match find_byte(l, 58) {
        Some(i) => {
            let n = l.len();
            assert(i < n);
            let name = utrim_bytes(vstd::slice::slice_subrange(l, 0, i));
            let value = utrim_bytes(vstd::slice::slice_subrange(l, i + 1, n));
            Some((lowercase(name), to_vec(value)))
        },
        None => None,
    }
}

fn parse_usize_text(v: &[u8]) -> (r: Option<usize>)
    ensures
        match r {
            Some(n) => usize_text(v@) == Some(n as nat),
            None => usize_text(v@) is None,
        },
{
    let d = if v.len() > 0 && v[0] == 43 {
        let d = vstd::slice::slice_subrange(v, 1, v.len());
        assert(d@ =~= v@.drop_first());
        d
    } else {
        v
    };
    match parse_digits(d, usize::MAX as u64) {
        Some(n) => Some(n as usize),
        None => None,
    }
}

/// Reads a request head: the request line (`METHOD PATH HTTP/1.1`), then
/// `name: value` headers; the body length comes from `Content-Length`.
pub fn parse_request_head(head: &[u8]) -> (r: Result<IncomingHead, Vec<u8>>)
    ensures
        match r {
            Ok(h) => head_spec(head@) == Ok::<_, Seq<u8>>((h.method@, h.path@, hmap(h.headers@), h.content_length as nat)),
            Err(m) => head_spec(head@) == Err::<(Seq<u8>, Seq<u8>, Seq<(Seq<u8>, Seq<u8>)>, nat), _>(m@),
        },
{
    proof {
        reveal_strlit("request headers must be UTF-8");
        reveal_strlit("request line is missing");
        reveal_strlit("HTTP method is missing");
        reveal_strlit("HTTP path is missing");
        reveal_strlit("expected HTTP/1.1 request");
        reveal_strlit("HTTP/1.1");
    }
    if !is_utf8(head) {
        return Err(ascii_bytes("request headers must be UTF-8"));
    }
    if head.len() == 0 {
        assert(lines(head@) =~= seq![]);
        return Err(ascii_bytes("request line is missing"));
    }
    let (request_line, mut rest) = split_first_line(head);
    let ghost ls = lines(head@);
    assert(ls[0] == request_line@);
    assert(ls.drop_first() =~= lines(rest@));
    let parts = split_words(request_line);
    assert(parts@.map_values(|w: &[u8]| w@).len() == parts@.len());
    if parts.len() < 1 {
        return Err(ascii_bytes("HTTP method is missing"));
    }
    if parts.len() < 2 {
        return Err(ascii_bytes("HTTP path is missing"));
    }
    assert(parts@.map_values(|w: &[u8]| w@)[0] == parts@[0]@);
    assert(parts@.map_values(|w: &[u8]| w@)[1] == parts@[1]@);
    if parts.len() != 3 || !bytes_eq(parts[2], ascii_bytes("HTTP/1.1").as_slice()) {
        proof {
            if parts@.len() == 3 {
                assert(parts@.map_values(|w: &[u8]| w@)[2] == parts@[2]@);
            }
        }
        return Err(ascii_bytes("expected HTTP/1.1 request"));
    }
    assert(parts@.map_values(|w: &[u8]| w@)[2] == parts@[2]@);
    let method = to_vec(parts[0]);
    let path = to_vec(parts[1]);
    let mut headers: Vec<(Vec<u8>, Vec<u8>)> = Vec::new();
    let ghost hl = lines(rest@);
    assert(words(lines(head@)[0]) == parts@.map_values(|w: &[u8]| w@));
    let ghost mut seen: Seq<Seq<u8>> = seq![];
    assert(hl =~= seen + lines(rest@));
    while rest.len() > 0
        invariant
            hl == seen + lines(rest@),
            header_map(seen) == Some(hmap(headers@)),
            vstd::utf8::valid_utf8(head@),
            lines(head@).len() > 0,
            hl == lines(head@).drop_first(),
            words(lines(head@)[0]).len() == 3,
            words(lines(head@)[0])[2] == lit("HTTP/1.1"),
        decreases rest@.len(),
    {
        let (line, next) = split_first_line(rest);
        let ghost s1 = seen.push(line@);
        assert(s1.drop_last() =~= seen);
        assert(hl =~= s1 + lines(next@));
        match parse_header_line(line) {
            Some((k, v)) => {
                proof {
                    lemma_smap_sinsert(pairs_view(headers@), k@, v, |v: Vec<u8>| v@);
                }
                sm_insert(&mut headers, k, v);
            },
            None => {
                proof {
                    assert(s1.last() == line@);
                    assert(header_line(line@) is None);
                    assert(header_map(s1) is None);
                    assert(hl.subrange(0, s1.len() as int) =~= s1);
                    lemma_header_map_none(hl, s1);
                    assert(header_map(hl) is None);
                    reveal_strlit("malformed HTTP header");
                }
                return Err(ascii_bytes("malformed HTTP header"));
            },
        }
        proof {
            seen = s1;
        }
        rest = next;
    }
    assert(lines(rest@) =~= seq![]);
    assert(seen + seq![] =~= seen);
    assert(hl == seen);
    proof {
        reveal_strlit("content-length");
        reveal_strlit("invalid Content-Length");
        reveal_strlit("request body exceeded 4 MiB");
        lemma_smap_sremove(pairs_view(headers@), lit("content-length"), |v: Vec<u8>| v@);
    }
    let content_length = match sm_get(&headers, ascii_bytes("content-length").as_slice()) {
        None => 0,
        Some(v) => match parse_usize_text(v.as_slice()) {
            None => return Err(ascii_bytes("invalid Content-Length")),
            Some(n) => n,
        },
    };
    if content_length > MAX_REQUEST_BYTES {
        return Err(ascii_bytes("request body exceeded 4 MiB"));
    }
    Ok(IncomingHead { method, path, headers, content_length })
}

/// Once some prefix of the header lines is malformed, the whole list is.
proof fn lemma_header_map_none(all: Seq<Seq<u8>>, prefix: Seq<Seq<u8>>)
    requires
        header_map(prefix) is None,
        prefix.len() <= all.len(),
        all.subrange(0, prefix.len() as int) == prefix,
    ensures
        header_map(all) is None,
    decreases all.len(),
{
    if all.len() > prefix.len() {
        assert(all.drop_last().subrange(0, prefix.len() as int) =~= prefix);
        lemma_header_map_none(all.drop_last(), prefix);
    } else {
        assert(all =~= prefix);
    }
}


/// Whether a request's `Origin`, if any, is a loopback page.
pub open spec fn origin_ok(h: Seq<(Seq<u8>, Seq<u8>)>) -> bool {
    match sget(h, lit("origin")) {
        Some(o) => o == lit("http://127.0.0.1") || o == lit("http://localhost"),
        None => true,
    }
}

/// Refuses browser requests from pages that are not on the loopback host.
pub fn validate_origin(headers: &Vec<(Vec<u8>, Vec<u8>)>) -> (r: Result<(), Vec<u8>>)
    ensures
        match r {
            Ok(_) => origin_ok(hmap(headers@)),
            Err(m) => !origin_ok(hmap(headers@)) && m@ == lit("Origin is not allowed"),
        },
{
    proof {
        reveal_strlit("origin");
        reveal_strlit("http://127.0.0.1");
        reveal_strlit("http://localhost");
        reveal_strlit("Origin is not allowed");
        lemma_smap_sremove(pairs_view(headers@), lit("origin"), |v: Vec<u8>| v@);
    }
    match sm_get(headers, ascii_bytes("origin").as_slice()) {
        Some(o) => {
            if !bytes_eq(o.as_slice(), ascii_bytes("http://127.0.0.1").as_slice()) && !bytes_eq(
                o.as_slice(),
                ascii_bytes("http://localhost").as_slice(),
            ) {
                return Err(ascii_bytes("Origin is not allowed"));
            }
            Ok(())
        },
        None => Ok(()),
    }
}

/// Why the routing headers of a request do not match its body: the
/// protocol version, method and tool name must all agree.
pub open spec fn routing_error(h: Seq<(Seq<u8>, Seq<u8>)>, params: JModel, method: Seq<u8>) -> Option<Seq<u8>> {
    match sget(h, lit("mcp-protocol-version")) {
        None => Some(lit("MCP-Protocol-Version header is required")),
        Some(v) => if Some(v) != request_version(params) {
            Some(lit("protocol version header/body mismatch"))
        } else {
            match sget(h, lit("mcp-method")) {
                None => Some(lit("Mcp-Method header is required")),
                Some(m) => if m != method {
                    Some(lit("method header/body mismatch"))
                } else if str_at(params, lit("name")) != sget(h, lit("mcp-name")) {
                    Some(lit("name header/body mismatch"))
                } else {
                    None
                },
            }
        },
    }
}

/// Checks that the routing headers repeat what the JSON-RPC body says.
pub fn validate_routing_headers(headers: &Vec<(Vec<u8>, Vec<u8>)>, request: &RpcRequest) -> (r: Result<(), Vec<u8>>)
    ensures
        match r {
            Ok(_) => routing_error(hmap(headers@), request.params@, request.method@) is None,
            Err(m) => routing_error(hmap(headers@), request.params@, request.method@) == Some(m@),
        },
{
    proof {
        reveal_strlit("mcp-protocol-version");
        reveal_strlit("mcp-method");
        reveal_strlit("mcp-name");
        reveal_strlit("name");
        reveal_strlit("_meta");
        reveal_strlit("io.modelcontextprotocol/protocolVersion");
        reveal_strlit("MCP-Protocol-Version header is required");
        reveal_strlit("protocol version header/body mismatch");
        reveal_strlit("Mcp-Method header is required");
        reveal_strlit("method header/body mismatch");
        reveal_strlit("name header/body mismatch");
        lemma_smap_sremove(pairs_view(headers@), lit("mcp-protocol-version"), |v: Vec<u8>| v@);
        lemma_smap_sremove(pairs_view(headers@), lit("mcp-method"), |v: Vec<u8>| v@);
        lemma_smap_sremove(pairs_view(headers@), lit("mcp-name"), |v: Vec<u8>| v@);
    }
    let version = match sm_get(headers, ascii_bytes("mcp-protocol-version").as_slice()) {
        Some(v) => v,
        None => return Err(ascii_bytes("MCP-Protocol-Version header is required")),
    };
    let same_version = match request.protocol_version() {
        Some(b) => bytes_eq(version.as_slice(), b),
        None => false,
    };
    if !same_version {
        return Err(ascii_bytes("protocol version header/body mismatch"));
    }
    let method = match sm_get(headers, ascii_bytes("mcp-method").as_slice()) {
        Some(m) => m,
        None => return Err(ascii_bytes("Mcp-Method header is required")),
    };
    if !bytes_eq(method.as_slice(), request.method.as_slice()) {
        return Err(ascii_bytes("method header/body mismatch"));
    }
    let body_name: Option<&[u8]> = match request.params.get(ascii_bytes("name").as_slice()) {
        Some(v) => v.as_str(),
        None => None,
    };
    let header_name = sm_get(headers, ascii_bytes("mcp-name").as_slice());
    let same_name = match (body_name, header_name) {
        (Some(a), Some(b)) => bytes_eq(a, b.as_slice()),
        (None, None) => true,
        _ => false,
    };
    if !same_name {
        return Err(ascii_bytes("name header/body mismatch"));
    }
    Ok(())
}

/// The parameters of the legacy `initialize` request.
pub open spec fn legacy_init_params() -> JModel {
    JModel::Object(
        jinsert(
            jinsert(
                jinsert(seq![], lit("protocolVersion"), JModel::Str(lit("2025-11-25"))),
                lit("capabilities"),
                JModel::Object(seq![]),
            ),
            lit("clientInfo"),
            JModel::Object(
                jinsert(
                    jinsert(seq![], lit("name"), JModel::Str(lit("genos-bridge"))),
                    lit("version"),
                    JModel::Str(lit(CLIENT_VERSION)),
                ),
            ),
        ),
    )
}

/// The `initialize` request that asks a stdio server whether it speaks a
/// legacy protocol.
pub fn legacy_initialize_request() -> (r: RpcRequest)
    ensures
        r.id@ == RidModel::Text(lit("genos-bridge-initialize")),
        r.method@ == lit("initialize"),
        r.params@ == legacy_init_params(),
{
    proof {
        reveal_strlit("name");
        reveal_strlit("genos-bridge");
        reveal_strlit("version");
        reveal_strlit("protocolVersion");
        reveal_strlit("2025-11-25");
        reveal_strlit("capabilities");
        reveal_strlit("clientInfo");
        reveal_strlit("genos-bridge-initialize");
        reveal_strlit("initialize");
        reveal_strlit("0.2.0");
    }
    let mut info: Vec<(Vec<u8>, JsonValue)> = Vec::new();
    assert(jentries(info@) =~= seq![]);
    object_insert(&mut info, ascii_bytes("name"), JsonValue::Str(ascii_bytes("genos-bridge")));
    object_insert(&mut info, ascii_bytes("version"), JsonValue::Str(ascii_bytes(CLIENT_VERSION)));
    let mut params: Vec<(Vec<u8>, JsonValue)> = Vec::new();
    assert(jentries(params@) =~= seq![]);
    object_insert(&mut params, ascii_bytes("protocolVersion"), JsonValue::Str(ascii_bytes("2025-11-25")));
    object_insert(&mut params, ascii_bytes("capabilities"), empty_object());
    object_insert(&mut params, ascii_bytes("clientInfo"), JsonValue::Object(info));
    RpcRequest {
        id: RequestId::Text(ascii_bytes("genos-bridge-initialize")),
        method: ascii_bytes("initialize"),
        params: JsonValue::Object(params),
    }
}

/// Parameters without the modern `_meta` member.
pub open spec fn strip_meta(params: JModel) -> JModel {
    match params {
        JModel::Object(m) => JModel::Object(jremove(m, lit("_meta"))),
        other => other,
    }
}

/// The request as forwarded to a legacy server: the same, without the
/// modern `_meta` parameters.
pub fn without_modern_metadata(request: &RpcRequest) -> (r: RpcRequest)
    ensures
        r.id@ == request.id@,
        r.method@ == request.method@,
        r.params@ == strip_meta(request.params@),
{
    proof {
        reveal_strlit("_meta");
    }
    let params = match &request.params {
        JsonValue::Object(m) => {
            let mut members = crate::json::duplicate_members(m);
            object_remove(&mut members, ascii_bytes("_meta").as_slice());
            JsonValue::Object(members)
        },
        other => other.duplicate(),
    };
    RpcRequest { id: request.id.duplicate(), method: to_vec(request.method.as_slice()), params }
}

/// The modern discovery result made from a legacy `initialize` result.
pub open spec fn legacy_discovery(l: JModel) -> JModel {
    let m0 = jinsert(
        jinsert(seq![], lit("resultType"), JModel::Str(lit("complete"))),
        lit("supportedVersions"),
        JModel::Array(seq![JModel::Str(lit(LATEST_PROTOCOL_VERSION))]),
    );
    let m1 = jinsert(m0, lit("capabilities"), match jget(l, lit("capabilities")) {
        Some(c) => c,
        None => JModel::Object(seq![]),
    });
    let m2 = match jget(l, lit("instructions")) {
        Some(i) => jinsert(m1, lit("instructions"), i),
        None => m1,
    };
    let m3 = match jget(l, lit("serverInfo")) {
        Some(si) => jinsert(m2, lit("_meta"), JModel::Object(jinsert(seq![], lit("io.modelcontextprotocol/serverInfo"), si))),
        None => m2,
    };
    JModel::Object(
        jinsert(jinsert(m3, lit("ttlMs"), JModel::Number(lit("60000"))), lit("cacheScope"), JModel::Str(lit("private"))),
    )
}

/// Answers a modern discovery with what a legacy server said at
/// initialization.
pub fn translate_legacy_discovery(id: RequestId, legacy: &JsonValue) -> (r: RpcResponse)
    ensures
        r.id@ == id@,
        r.error is None,
        r.result matches Some(v) && v@ == legacy_discovery(legacy@),
{
    proof {
        reveal_strlit("resultType");
        reveal_strlit("complete");
        reveal_strlit("supportedVersions");
        reveal_strlit("capabilities");
        reveal_strlit("instructions");
        reveal_strlit("serverInfo");
        reveal_strlit("_meta");
        reveal_strlit("io.modelcontextprotocol/serverInfo");
        reveal_strlit("ttlMs");
        reveal_strlit("60000");
        reveal_strlit("cacheScope");
        reveal_strlit("private");
        reveal_strlit("2026-07-28");
    }
    let mut m: Vec<(Vec<u8>, JsonValue)> = Vec::new();
    assert(jentries(m@) =~= seq![]);
    object_insert(&mut m, ascii_bytes("resultType"), JsonValue::Str(ascii_bytes("complete")));
    let mut versions: Vec<JsonValue> = Vec::new();
    let sv = JsonValue::Str(ascii_bytes(LATEST_PROTOCOL_VERSION));
    assert(sv@ == JModel::Str(lit(LATEST_PROTOCOL_VERSION)));
    versions.push(sv);
    assert(versions@.last() == sv);
    assert(versions@.drop_last() =~= Seq::<JsonValue>::empty());
    assert(crate::json::jviews(versions@.drop_last()) =~= seq![]);
    assert(crate::json::jviews(versions@) =~= seq![JModel::Str(lit(LATEST_PROTOCOL_VERSION))]);
    object_insert(&mut m, ascii_bytes("supportedVersions"), JsonValue::Array(versions));
    let caps = match legacy.get(ascii_bytes("capabilities").as_slice()) {
        Some(c) => c.duplicate(),
        None => empty_object(),
    };
    object_insert(&mut m, ascii_bytes("capabilities"), caps);
    match legacy.get(ascii_bytes("instructions").as_slice()) {
        Some(i) => object_insert(&mut m, ascii_bytes("instructions"), i.duplicate()),
        None => {},
    }
    match legacy.get(ascii_bytes("serverInfo").as_slice()) {
        Some(si) => {
            let mut meta: Vec<(Vec<u8>, JsonValue)> = Vec::new();
            assert(jentries(meta@) =~= seq![]);
            object_insert(&mut meta, ascii_bytes("io.modelcontextprotocol/serverInfo"), si.duplicate());
            object_insert(&mut m, ascii_bytes("_meta"), JsonValue::Object(meta));
        },
        None => {},
    }
    object_insert(&mut m, ascii_bytes("ttlMs"), JsonValue::Number(ascii_bytes("60000")));
    object_insert(&mut m, ascii_bytes("cacheScope"), JsonValue::Str(ascii_bytes("private")));
    RpcResponse::success(id, JsonValue::Object(m))
}


/// A text with `\` and `"` escaped for a JSON string.
pub open spec fn escaped(s: Seq<u8>) -> Seq<u8>
    decreases s.len(),
{
    if s.len() == 0 {
        seq![]
    } else {
        let b = s.last();
        escaped(s.drop_last()) + if b == 92 {
            seq![92u8, 92u8]
        } else if b == 34 {
            seq![92u8, 34u8]
        } else {
            seq![b]
        }
    }
}

/// Escapes backslashes and quotes for a JSON string.
pub fn json_escape(value: &[u8]) -> (r: Vec<u8>)
    ensures
        r@ == escaped(value@),
{
    let mut out: Vec<u8> = Vec::new();
    let mut i: usize = 0;
    while i < value.len()
        invariant
            0 <= i <= value@.len(),
            out@ == escaped(value@.subrange(0, i as int)),
        decreases value.len() - i,
    {
        let b = value[i];
        if b == 92 {
            out.push(92);
            out.push(92);
        } else if b == 34 {
            out.push(92);
            out.push(34);
        } else {
            out.push(b);
        }
        assert(value@.subrange(0, i + 1).drop_last() =~= value@.subrange(0, i as int));
        i = i + 1;
        assert(out@ =~= escaped(value@.subrange(0, i as int)));
    }
    assert(value@.subrange(0, i as int) =~= value@);
    out
}

/// The JSON body of a bridge error.
pub open spec fn error_text(code: Seq<u8>, message: Seq<u8>) -> Seq<u8> {
    lit("{\"error\":{\"code\":\"") + escaped(code) + lit("\",\"message\":\"") + escaped(message) + lit("\"}}")
}

/// The body of an error reply.
pub fn error_body(code: &[u8], message: &[u8]) -> (r: Vec<u8>)
    ensures
        r@ == error_text(code@, message@),
{
    proof {
        reveal_strlit("{\"error\":{\"code\":\"");
        reveal_strlit("\",\"message\":\"");
        reveal_strlit("\"}}");
    }
    let mut out = ascii_bytes("{\"error\":{\"code\":\"");
    push_all(&mut out, json_escape(code).as_slice());
    push_all(&mut out, ascii_bytes("\",\"message\":\"").as_slice());
    push_all(&mut out, json_escape(message).as_slice());
    push_all(&mut out, ascii_bytes("\"}}").as_slice());
    out
}

/// The reason phrase of the statuses the bridge sends.
pub open spec fn reason_text(status: u16) -> Seq<u8> {
    if status == 200 {
        lit("OK")
    } else if status == 400 {
        lit("Bad Request")
    } else if status == 404 {
        lit("Not Found")
    } else if status == 502 {
        lit("Bad Gateway")
    } else {
        lit("Error")
    }
}

pub fn reason_phrase(status: u16) -> (r: &'static str)
    ensures
        r.is_ascii(),
        lit(r) == reason_text(status),
{
    proof {
        reveal_strlit("OK");
        reveal_strlit("Bad Request");
        reveal_strlit("Not Found");
        reveal_strlit("Bad Gateway");
        reveal_strlit("Error");
    }
    if status == 200 {
        "OK"
    } else if status == 400 {
        "Bad Request"
    } else if status == 404 {
        "Not Found"
    } else if status == 502 {
        "Bad Gateway"
    } else {
        "Error"
    }
}

/// The status line and headers of a bridge reply.
pub open spec fn head_text(status: u16, content_type: Seq<u8>, len: nat) -> Seq<u8> {
    lit("HTTP/1.1 ") + crate::text::dec(status as nat) + seq![32u8] + reason_text(status) + lit("\r\nContent-Type: ")
        + content_type + lit("\r\nContent-Length: ") + crate::text::dec(len)
        + lit("\r\nConnection: close\r\nX-Content-Type-Options: nosniff\r\n\r\n")
}

/// Frames the head of a reply with a body of `body_len` bytes.
pub fn response_head(status: u16, content_type: &[u8], body_len: usize) -> (r: Vec<u8>)
    ensures
        r@ == head_text(status, content_type@, body_len as nat),
{
    proof {
        reveal_strlit("HTTP/1.1 ");
        reveal_strlit("\r\nContent-Type: ");
        reveal_strlit("\r\nContent-Length: ");
        reveal_strlit("\r\nConnection: close\r\nX-Content-Type-Options: nosniff\r\n\r\n");
    }
    let mut out = ascii_bytes("HTTP/1.1 ");
    push_dec(&mut out, status as u64);
    out.push(32);
    push_all(&mut out, ascii_bytes(reason_phrase(status)).as_slice());
    push_all(&mut out, ascii_bytes("\r\nContent-Type: ").as_slice());
    push_all(&mut out, content_type);
    push_all(&mut out, ascii_bytes("\r\nContent-Length: ").as_slice());
    push_dec(&mut out, body_len as u64);
    push_all(&mut out, ascii_bytes("\r\nConnection: close\r\nX-Content-Type-Options: nosniff\r\n\r\n").as_slice());
    out
}

/// What the bridge does with a connection.
#[derive(Debug)]
pub enum BridgeAction {
    /// `GET /healthz`.
    Health,
    /// Anything but `POST /mcp`.
    NotFound,
    /// A valid JSON-RPC request for the server.
    Forward(RpcRequest),
}

/// Model of a bridge action.
pub enum ActionModel {
    Health,
    NotFound,
    Forward(RidModel, Seq<u8>, JModel),
}

pub open spec fn action_view(a: BridgeAction) -> ActionModel {
    match a {
        BridgeAction::Health => ActionModel::Health,
        BridgeAction::NotFound => ActionModel::NotFound,
        BridgeAction::Forward(q) => ActionModel::Forward(q.id@, q.method@, q.params@),
    }
}

/// The bridge's decision about a request: health checks and unknown
/// routes are answered directly; `POST /mcp` must come from a loopback
/// origin and carry a UTF-8 JSON-RPC request whose routing headers match
/// it.
pub open spec fn connection_spec(method: Seq<u8>, path: Seq<u8>, h: Seq<(Seq<u8>, Seq<u8>)>, body: Seq<u8>) -> Result<ActionModel, Seq<u8>> {
    if method == lit("GET") && path == lit("/healthz") {
        Ok(ActionModel::Health)
    } else if method != lit("POST") || path != lit("/mcp") {
        Ok(ActionModel::NotFound)
    } else if !origin_ok(h) {
        Err(lit("Origin is not allowed"))
    } else if !vstd::utf8::valid_utf8(body) {
        Err(lit("request body must be UTF-8"))
    } else {
        match jparse(body) {
            PStep::Done(v, _) => match request_of(v) {
                Err((_, m)) => Err(m),
                Ok((id, meth, params)) => match routing_error(h, params, meth) {
                    Some(m) => Err(m),
                    None => Ok(ActionModel::Forward(id, meth, params)),
                },
            },
            _ => Err(lit("request body must be JSON")),
        }
    }
}

/// Decides what to do with a request once its head and body are read.
/// Text that breaks off where a value is due is reported as not JSON.
pub fn plan_connection(head: &IncomingHead, body: &[u8]) -> (r: Result<BridgeAction, Vec<u8>>)
    ensures
        match r {
            Ok(a) => connection_spec(head.method@, head.path@, hmap(head.headers@), body@) == Ok::<_, Seq<u8>>(action_view(a)),
            Err(m) => connection_spec(head.method@, head.path@, hmap(head.headers@), body@) == Err::<ActionModel, _>(m@),
        },
{
    proof {
        reveal_strlit("GET");
        reveal_strlit("/healthz");
        reveal_strlit("POST");
        reveal_strlit("/mcp");
        reveal_strlit("request body must be UTF-8");
        reveal_strlit("request body must be JSON");
    }
    let m = head.method.as_slice();
    let p = head.path.as_slice();
    if bytes_eq(m, ascii_bytes("GET").as_slice()) && bytes_eq(p, ascii_bytes("/healthz").as_slice()) {
        return Ok(BridgeAction::Health);
    }
    if !bytes_eq(m, ascii_bytes("POST").as_slice()) || !bytes_eq(p, ascii_bytes("/mcp").as_slice()) {
        return Ok(BridgeAction::NotFound);
    }
    match validate_origin(&head.headers) {
        Ok(_) => {},
        Err(e) => return Err(e),
    }
    if !is_utf8(body) {
        return Err(ascii_bytes("request body must be UTF-8"));
    }
    let value = match parse_checked(body) {
        Some(Ok(v)) => v,
        _ => return Err(ascii_bytes("request body must be JSON")),
    };
    let rpc = match RpcRequest::from_json(&value) {
        Ok(q) => q,
        Err(e) => return Err(e.message),
    };
    match validate_routing_headers(&head.headers, &rpc) {
        Ok(_) => Ok(BridgeAction::Forward(rpc)),
        Err(e) => Err(e),
    }
}

/// What the bridge knows of the stdio server's protocol.
#[derive(Debug, Clone, Copy, PartialEq, Eq, Structural)]
pub enum StdioMode {
    Unknown,
    Modern,
    Legacy,
}

/// The next step for a request to the stdio server.
#[derive(Debug)]
pub enum PeerStep {
    /// Probe the server with a legacy `initialize` first.
    Discover,
    /// Send this request.
    Send(RpcRequest),
}

/// Whether a request goes first through discovery (a discovery while the
/// protocol is unknown); what is sent otherwise (legacy servers get no
/// modern `_meta`).
pub fn forward_plan(mode: StdioMode, request: &RpcRequest) -> (r: PeerStep)
    ensures
        match r {
            PeerStep::Discover => request.method@ == lit(crate::method::SERVER_DISCOVER) && mode == StdioMode::Unknown,
            PeerStep::Send(q) => !(request.method@ == lit(crate::method::SERVER_DISCOVER) && mode == StdioMode::Unknown)
                && q.id@ == request.id@ && q.method@ == request.method@ && q.params@ == (if mode == StdioMode::Legacy {
                strip_meta(request.params@)
            } else {
                request.params@
            }),
        },
{
    proof {
        reveal_strlit("server/discover");
    }
    if bytes_eq(request.method.as_slice(), ascii_bytes(crate::method::SERVER_DISCOVER).as_slice()) && mode == StdioMode::Unknown {
        return PeerStep::Discover;
    }
    if mode == StdioMode::Legacy {
        PeerStep::Send(without_modern_metadata(request))
    } else {
        PeerStep::Send(RpcRequest {
            id: request.id.duplicate(),
            method: to_vec(request.method.as_slice()),
            params: request.params.duplicate(),
        })
    }
}

/// How a server answered the legacy `initialize` probe.
#[derive(Debug)]
pub enum InitOutcome {
    /// A legacy server: its discovery, translated.
    Legacy(RpcResponse),
    /// A modern server: send the discovery itself.
    Modern,
    /// Neither: the reply to the discovery.
    Failed(RpcResponse),
}

/// The mode and reply that an `initialize` answer leads to: a result with
/// a protocol version means a legacy server; `method not found` means a
/// modern one; anything else fails the discovery.
pub fn after_initialize(request_id: &RequestId, initialized: &RpcResponse) -> (r: InitOutcome)
    ensures
        match r {
            InitOutcome::Legacy(q) => (initialized.result matches Some(res) && str_at(res@, lit("protocolVersion")) is Some
                && q.id@ == request_id@ && q.error is None && (q.result matches Some(v) && v@ == legacy_discovery(res@))),
            InitOutcome::Modern => !(initialized.result matches Some(res) && str_at(res@, lit("protocolVersion")) is Some)
                && (initialized.error matches Some(e) && e.code == McpError::METHOD_NOT_FOUND),
            InitOutcome::Failed(q) => !(initialized.result matches Some(res) && str_at(res@, lit("protocolVersion")) is Some)
                && !(initialized.error matches Some(e) && e.code == McpError::METHOD_NOT_FOUND) && q.id@ == request_id@
                && q.result is None && err_model(q.error) == Some(match initialized.error {
                Some(e) => (e.code, e.message@, crate::json::jopt(e.data)),
                None => (McpError::INVALID_REQUEST, lit("legacy initialization was malformed"), None),
            }),
        },
{
    proof {
        reveal_strlit("protocolVersion");
        reveal_strlit("legacy initialization was malformed");
    }
    match &initialized.result {
        Some(res) => {
            let legacy = match res.get(ascii_bytes("protocolVersion").as_slice()) {
                Some(v) => v.as_str().is_some(),
                None => false,
            };
            if legacy {
                return InitOutcome::Legacy(translate_legacy_discovery(request_id.duplicate(), res));
            }
        },
        None => {},
    }
    let error = match &initialized.error {
        Some(e) => {
            if e.code == McpError::METHOD_NOT_FOUND {
                return InitOutcome::Modern;
            }
            e.duplicate()
        },
        None => McpError::invalid_request(ascii_bytes("legacy initialization was malformed").as_slice()),
    };
    InitOutcome::Failed(RpcResponse::failure(request_id.duplicate(), error))
}

/// Whether two request ids are the same.
pub fn same_id(a: &RequestId, b: &RequestId) -> (r: bool)
    ensures
        r == (a@ == b@),
{
    match (a, b) {
        (RequestId::Text(x), RequestId::Text(y)) => bytes_eq(x.as_slice(), y.as_slice()),
        (RequestId::Number(x), RequestId::Number(y)) => *x == *y,
        _ => false,
    }
}

/// The reply to a request on one line of the server's output: the line
/// (trimmed) must be a JSON-RPC response with the request's id; other
/// lines (notifications, requests from the server) are passed over.
pub open spec fn line_response(line: Seq<u8>, id: RidModel) -> Option<(RidModel, Option<JModel>, Option<(i32, Seq<u8>, Option<JModel>)>)> {
    match jparse(utrim(line)) {
        PStep::Done(v, _) => match response_of(v) {
            Ok(x) => if x.0 == id {
                Some(x)
            } else {
                None
            },
            Err(_) => None,
        },
        _ => None,
    }
}

/// Reads one line of the server's output as the reply to a request.
pub fn response_for(line: &[u8], request_id: &RequestId) -> (r: Option<RpcResponse>)
    ensures
        match r {
            Some(q) => line_response(line@, request_id@) == Some((q.id@, crate::json::jopt(q.result), err_model(q.error))),
            None => line_response(line@, request_id@) is None,
        },
{
    let value = match parse_checked(utrim_bytes(line)) {
        Some(Ok(v)) => v,
        _ => return None,
    };
    match RpcResponse::from_json(&value) {
        Ok(q) => if same_id(&q.id, request_id) {
            Some(q)
        } else {
            None
        },
        Err(_) => None,
    }
}

/// A JSON-RPC notification without parameters.
pub fn notification(method: &[u8]) -> (r: JsonValue)
    ensures
        r@ == JModel::Object(jinsert(jinsert(seq![], lit("jsonrpc"), JModel::Str(lit("2.0"))), lit("method"), JModel::Str(method@))),
{
    proof {
        reveal_strlit("jsonrpc");
        reveal_strlit("2.0");
        reveal_strlit("method");
    }
    let mut m: Vec<(Vec<u8>, JsonValue)> = Vec::new();
    assert(jentries(m@) =~= seq![]);
    object_insert(&mut m, ascii_bytes("jsonrpc"), JsonValue::Str(ascii_bytes("2.0")));
    object_insert(&mut m, ascii_bytes("method"), JsonValue::Str(to_vec(method)));
    JsonValue::Object(m)
}

} // verus!
