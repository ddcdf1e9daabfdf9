//! Memory tools over the palace files: reading and setting facts (a
//! changed value supersedes the old one, which is archived), logging and
//! storing turns, forgetting entries and consolidating a session's facts.
//!
//! Each tool is handed the contents of the files it reads and gives back,
//! with its reply, the new contents of the files it writes.

use vstd::prelude::*;

use crate::consolidate::{journal_yield, last_n, non_blank};
use crate::json::{jentries, jinsert, jtext, jviews, json_u64, object_insert, str_at, JModel, JsonValue};
use crate::palace::{facts_from_bytes, hall_bytes, pairs_view, spec_facts_from_bytes, Hall};
use crate::registry::{failure_model, success_model, ResultModel, ToolResult};
use crate::text::{ascii_bytes, dec, find_sub, find_sub_from, has_prefix, lines, lit, lossy_text, push_all, split_first_line, starts_with, to_vec, utf8_lossy};
use crate::web::{utrim, utrim_bytes};

verus! {

/// The refusal of a call that lacks a string argument.
pub open spec fn missing_arg(call_id: Seq<u8>, message: Seq<u8>) -> ResultModel {
    failure_model(call_id, lit("invalid_args"), message, false)
}

fn missing(call_id: &[u8], message: &str) -> (r: ToolResult)
    requires
        message.is_ascii(),
    ensures
        r@ == missing_arg(call_id@, lit(message)),
{
    proof {
        reveal_strlit("invalid_args");
    }
    ToolResult::failure(call_id, ascii_bytes("invalid_args").as_slice(), ascii_bytes(message).as_slice(), false)
}

fn str_arg<'a>(args: &'a JsonValue, key: &str) -> (r: Option<&'a [u8]>)
    requires
        key.is_ascii(),
    ensures
        match r {
            Some(s) => str_at(args@, lit(key)) == Some(s@),
            None => str_at(args@, lit(key)) is None,
        },
{
    match args.get(ascii_bytes(key).as_slice()) {
        Some(v) => v.as_str(),
        None => None,
    }
}

/// The text of a file as read (lossily decoded; empty when missing).
pub open spec fn file_text(f: Option<Seq<u8>>) -> Seq<u8> {
    match f {
        Some(d) => utf8_lossy(d),
        None => seq![],
    }
}

fn file_text_exec(f: Option<&[u8]>) -> (r: Vec<u8>)
    ensures
        r@ == file_text(crate::web::bytes_opt(f)),
{
    match f {
        Some(d) => lossy_text(d),
        None => Vec::new(),
    }
}

/// The facts of `facts.kv` as read (none when missing).
pub open spec fn file_facts(f: Option<Seq<u8>>) -> Seq<(Seq<u8>, Seq<u8>)> {
    match f {
        Some(d) => spec_facts_from_bytes(d),
        None => seq![],
    }
}

// ---------------------------------------------------------------------
// memory.facts_get
// ---------------------------------------------------------------------

/// The JSON of a fact.
pub open spec fn fact_json(kv: (Seq<u8>, Seq<u8>)) -> JModel {
    JModel::Object(jinsert(jinsert(seq![], lit("key"), JModel::Str(kv.0)), lit("value"), JModel::Str(kv.1)))
}

/// `memory.facts_get`: every fact of `facts.kv` as `{key, value}`.
pub fn tool_facts_get(call_id: &[u8], facts_file: Option<&[u8]>) -> (r: ToolResult)
    ensures
        r@ == success_model(
            call_id@,
            JModel::Array(file_facts(crate::web::bytes_opt(facts_file)).map_values(|kv: (Seq<u8>, Seq<u8>)| fact_json(kv))),
            0,
        ),
{
    let facts = match facts_file {
        Some(d) => facts_from_bytes(d),
        None => Vec::new(),
    };
    let ghost fv = pairs_view(facts@);
    assert(fv =~= file_facts(crate::web::bytes_opt(facts_file)));
    let mut arr: Vec<JsonValue> = Vec::new();
    let mut i: usize = 0;
    while i < facts.len()
        invariant
            0 <= i <= facts@.len(),
            fv == pairs_view(facts@),
            jviews(arr@) == fv.subrange(0, i as int).map_values(|kv: (Seq<u8>, Seq<u8>)| fact_json(kv)),
        decreases facts.len() - i,
    {
        proof {
            reveal_strlit("key");
            reveal_strlit("value");
        }
        let mut m: Vec<(Vec<u8>, JsonValue)> = Vec::new();
        assert(jentries(m@) =~= seq![]);
        object_insert(&mut m, ascii_bytes("key"), JsonValue::Str(to_vec(facts[i].0.as_slice())));
        object_insert(&mut m, ascii_bytes("value"), JsonValue::Str(to_vec(facts[i].1.as_slice())));
        assert(fv[i as int] == (facts@[i as int].0@, facts@[i as int].1@));
        assert(JsonValue::Object(m)@ == fact_json(fv[i as int]));
        let ghost a0 = arr@;
        arr.push(JsonValue::Object(m));
        assert(arr@.drop_last() =~= a0);
        assert(fv.subrange(0, i + 1).map_values(|kv: (Seq<u8>, Seq<u8>)| fact_json(kv)) =~= fv.subrange(0, i as int).map_values(
            |kv: (Seq<u8>, Seq<u8>)| fact_json(kv),
        ).push(fact_json(fv[i as int])));
        i = i + 1;
    }
    assert(fv.subrange(0, i as int) =~= fv);
    ToolResult::success(call_id, JsonValue::Array(arr), 0)
}

// ---------------------------------------------------------------------
// memory.facts_set
// ---------------------------------------------------------------------

/// The value a fact held before, when it differs from `value`: the first
/// fact with this key and another value.
pub open spec fn conflict(facts: Seq<(Seq<u8>, Seq<u8>)>, key: Seq<u8>, value: Seq<u8>) -> Option<Seq<u8>>
    decreases facts.len(),
{
    if facts.len() == 0 {
        None
    } else if facts[0].0 == key && facts[0].1 != value {
        Some(facts[0].1)
    } else {
        conflict(facts.drop_first(), key, value)
    }
}

/// Whether the fact is already held with this very value.
pub open spec fn holds(facts: Seq<(Seq<u8>, Seq<u8>)>, key: Seq<u8>, value: Seq<u8>) -> bool {
    exists|i: int| 0 <= i < facts.len() && facts[i] == (key, value)
}

/// A new fact line: `key = value [valid_from: ts]`.
pub open spec fn fact_line(key: Seq<u8>, value: Seq<u8>, ts: Seq<u8>) -> Seq<u8> {
    key + lit(" = ") + value + lit(" [valid_from: ") + ts + lit("]\n")
}

/// A `facts.kv` line, marked superseded when it is the current entry of
/// `key`; every line ends with a line break.
pub open spec fn marked_line(line: Seq<u8>, key: Seq<u8>, ts: Seq<u8>, old: Seq<u8>) -> Seq<u8> {
    let t = utrim(line);
    let is_entry = has_prefix(t, key) && match find_sub_from(t, lit(" = "), 0) {
        Some(e) => utrim(t.subrange(0, e)) == key && find_sub_from(t, lit("[superseded"), 0) is None,
        None => false,
    };
    if is_entry {
        t + lit(" [superseded: ") + ts + lit(", was: ") + old + lit("]\n")
    } else {
        line + seq![10u8]
    }
}

/// Every line of `facts.kv`, marked as [`marked_line`] does.
pub open spec fn marked_lines(ls: Seq<Seq<u8>>, key: Seq<u8>, ts: Seq<u8>, old: Seq<u8>) -> Seq<u8>
    decreases ls.len(),
{
    if ls.len() == 0 {
        seq![]
    } else {
        marked_lines(ls.drop_last(), key, ts, old) + marked_line(ls.last(), key, ts, old)
    }
}

/// The archive line of a superseded fact.
pub open spec fn superseded_line(key: Seq<u8>, old: Seq<u8>, ts: Seq<u8>, value: Seq<u8>) -> Seq<u8> {
    key + lit(" = ") + old + lit(" [valid_until: ") + ts + lit(", superseded_by: ") + value + lit("]\n")
}

/// The warning given when a fact changes.
pub open spec fn change_warning(key: Seq<u8>, value: Seq<u8>, old: Seq<u8>) -> Seq<u8> {
    lit("Fact updated: ") + key + lit(" = \"") + value + lit("\" (was: \"") + old + lit("\")")
}

/// The outcome of setting a fact: the reply, and the new contents of
/// `facts.kv` and of the superseded archive when they are written.
pub struct FactsUpdate {
    pub reply: ToolResult,
    pub facts_kv: Option<Vec<u8>>,
    pub superseded_kv: Option<Vec<u8>>,
}

/// Model of a facts update.
pub struct FactsModel {
    pub reply: ResultModel,
    pub facts_kv: Option<Seq<u8>>,
    pub superseded_kv: Option<Seq<u8>>,
}

pub open spec fn opt_vec(v: Option<Vec<u8>>) -> Option<Seq<u8>> {
    match v {
        Some(x) => Some(x@),
        None => None,
    }
}

impl View for FactsUpdate {
    type V = FactsModel;

    open spec fn view(&self) -> FactsModel {
        FactsModel { reply: self.reply@, facts_kv: opt_vec(self.facts_kv), superseded_kv: opt_vec(self.superseded_kv) }
    }
}

/// Setting `key` to `value` at `ts`, given `facts.kv` and the archive:
/// a changed value marks the old line superseded, appends the new one,
/// archives the old value and warns; an unchanged value writes nothing;
/// a new key is appended.
pub open spec fn set_fact(
    call_id: Seq<u8>,
    key: Seq<u8>,
    value: Seq<u8>,
    ts: Seq<u8>,
    facts_file: Option<Seq<u8>>,
    archive_file: Option<Seq<u8>>,
) -> FactsModel {
    let facts = file_facts(facts_file);
    let raw = file_text(facts_file);
    match conflict(facts, key, value) {
        Some(old) => FactsModel {
            reply: success_model(
                call_id,
                JModel::Object(
                    jinsert(
                        jinsert(jinsert(seq![], lit("updated"), JModel::Bool(true)), lit("contradiction"), JModel::Bool(true)),
                        lit("warning"),
                        JModel::Str(change_warning(key, value, old)),
                    ),
                ),
                0,
            ),
            facts_kv: Some(marked_lines(lines(raw), key, ts, old) + fact_line(key, value, ts)),
            superseded_kv: Some(file_text(archive_file) + superseded_line(key, old, ts, value)),
        },
        None => if holds(facts, key, value) {
            FactsModel {
                reply: success_model(
                    call_id,
                    JModel::Object(
                        jinsert(jinsert(seq![], lit("updated"), JModel::Bool(false)), lit("reason"), JModel::Str(lit("value unchanged"))),
                    ),
                    0,
                ),
                facts_kv: None,
                superseded_kv: None,
            }
        } else {
            FactsModel {
                reply: success_model(
                    call_id,
                    JModel::Object(
                        jinsert(jinsert(seq![], lit("updated"), JModel::Bool(true)), lit("contradiction"), JModel::Bool(false)),
                    ),
                    0,
                ),
                facts_kv: Some(raw + fact_line(key, value, ts)),
                superseded_kv: None,
            }
        },
    }
}

fn find_conflict(facts: &Vec<(Vec<u8>, Vec<u8>)>, key: &[u8], value: &[u8]) -> (r: (Option<Vec<u8>>, bool))
    ensures
        opt_vec(r.0) == conflict(pairs_view(facts@), key@, value@),
        r.0 is None ==> r.1 == holds(pairs_view(facts@), key@, value@),
{
    let ghost fv = pairs_view(facts@);
    assert(fv.subrange(0, fv.len() as int) =~= fv);
    let mut same = false;
    let mut i: usize = 0;
    while i < facts.len()
        invariant
            0 <= i <= facts@.len(),
            fv == pairs_view(facts@),
            conflict(fv, key@, value@) == conflict(fv.subrange(i as int, fv.len() as int), key@, value@),
            same == exists|j: int| 0 <= j < i && fv[j] == (key@, value@),
            forall|j: int| 0 <= j < i ==> !(fv[j].0 == key@ && fv[j].1 != value@),
        decreases facts.len() - i,
    {
        let k = facts[i].0.as_slice();
        let v = facts[i].1.as_slice();
        assert(fv[i as int] == (k@, v@));
        let ghost rest = fv.subrange(i as int, fv.len() as int);
        assert(rest[0] == fv[i as int]);
        assert(rest.drop_first() =~= fv.subrange(i + 1, fv.len() as int));
        let ke = crate::text::bytes_eq(k, key);
        let ve = crate::text::bytes_eq(v, value);
        if ke && !ve {
            return (Some(to_vec(v)), false);
        }
        if ke && ve {
            same = true;
        }
        i = i + 1;
    }
    assert(fv.subrange(i as int, fv.len() as int) =~= Seq::<(Seq<u8>, Seq<u8>)>::empty());
    (None, same)
}

fn fact_line_exec(key: &[u8], value: &[u8], ts: &[u8]) -> (r: Vec<u8>)
    ensures
        r@ == fact_line(key@, value@, ts@),
{
    proof {
        reveal_strlit(" = ");
        reveal_strlit(" [valid_from: ");
        reveal_strlit("]\n");
    }
    let mut out = to_vec(key);
    push_all(&mut out, ascii_bytes(" = ").as_slice());
    push_all(&mut out, value);
    push_all(&mut out, ascii_bytes(" [valid_from: ").as_slice());
    push_all(&mut out, ts);
    push_all(&mut out, ascii_bytes("]\n").as_slice());
    out
}

fn marked_line_exec(out: &mut Vec<u8>, line: &[u8], key: &[u8], ts: &[u8], prev: &[u8])
    ensures
        final(out)@ == old(out)@ + marked_line(line@, key@, ts@, prev@),
{
    proof {
        reveal_strlit(" = ");
        reveal_strlit("[superseded");
        reveal_strlit(" [superseded: ");
        reveal_strlit(", was: ");
        reveal_strlit("]\n");
    }
    let t = utrim_bytes(line);
    let mut is_entry = false;
    if starts_with(t, key) {
        match find_sub(t, ascii_bytes(" = ").as_slice(), 0) {
            Some(e) => {
                proof {
                    crate::text::lemma_find_sub_from(t@, lit(" = "), 0);
                }
                let before = utrim_bytes(vstd::slice::slice_subrange(t, 0, e));
                is_entry = crate::text::bytes_eq(before, key) && find_sub(t, ascii_bytes("[superseded").as_slice(), 0).is_none();
            },
            None => {},
        }
    }
    if is_entry {
        push_all(out, t);
        push_all(out, ascii_bytes(" [superseded: ").as_slice());
        push_all(out, ts);
        push_all(out, ascii_bytes(", was: ").as_slice());
        push_all(out, prev);
        push_all(out, ascii_bytes("]\n").as_slice());
    } else {
        push_all(out, line);
        out.push(10);
    }
}

/// `memory.facts_set`, given the contents of `facts.kv` and of the
/// superseded archive (`None` when missing); see [`set_fact`].
pub fn tool_facts_set(
    args: &JsonValue,
    call_id: &[u8],
    timestamp: &[u8],
    facts_file: Option<&[u8]>,
    archive_file: Option<&[u8]>,
) -> (r: FactsUpdate)
    ensures
        match (str_at(args@, lit("key")), str_at(args@, lit("value"))) {
            (None, _) => r@ == (FactsModel { reply: missing_arg(call_id@, lit("missing 'key'")), facts_kv: None, superseded_kv: None }),
            (Some(_), None) => r@ == (FactsModel {
                reply: missing_arg(call_id@, lit("missing 'value'")),
                facts_kv: None,
                superseded_kv: None,
            }),
            (Some(k), Some(v)) => r@ == set_fact(
                call_id@,
                k,
                v,
                timestamp@,
                crate::web::bytes_opt(facts_file),
                crate::web::bytes_opt(archive_file),
            ),
        },
{
    proof {
        reveal_strlit("key");
        reveal_strlit("value");
        reveal_strlit("missing 'key'");
        reveal_strlit("missing 'value'");
    }
    let key = match str_arg(args, "key") {
        Some(k) => k,
        None => return FactsUpdate { reply: missing(call_id, "missing 'key'"), facts_kv: None, superseded_kv: None },
    };
    let value = match str_arg(args, "value") {
        Some(v) => v,
        None => return FactsUpdate { reply: missing(call_id, "missing 'value'"), facts_kv: None, superseded_kv: None },
    };
    set_fact_exec(call_id, key, value, timestamp, facts_file, archive_file)
}

/// Sets one fact; see [`set_fact`].
pub fn set_fact_exec(
    call_id: &[u8],
    key: &[u8],
    value: &[u8],
    timestamp: &[u8],
    facts_file: Option<&[u8]>,
    archive_file: Option<&[u8]>,
) -> (r: FactsUpdate)
    ensures
        r@ == set_fact(call_id@, key@, value@, timestamp@, crate::web::bytes_opt(facts_file), crate::web::bytes_opt(archive_file)),
{
    proof {
        reveal_strlit("updated");
        reveal_strlit("contradiction");
        reveal_strlit("warning");
        reveal_strlit("reason");
        reveal_strlit("value unchanged");
        reveal_strlit(" = ");
        reveal_strlit(" [valid_until: ");
        reveal_strlit(", superseded_by: ");
        reveal_strlit("]\n");
        reveal_strlit("Fact updated: ");
        reveal_strlit(" = \"");
        reveal_strlit("\" (was: \"");
        reveal_strlit("\")");
    }
    let facts = match facts_file {
        Some(d) => facts_from_bytes(d),
        None => Vec::new(),
    };
    assert(pairs_view(facts@) =~= file_facts(crate::web::bytes_opt(facts_file)));
    let raw = file_text_exec(facts_file);
    let (conf, same) = find_conflict(&facts, key, value);
    match conf {
        Some(old) => {
            let ghost ls = lines(raw@);
            let mut content: Vec<u8> = Vec::new();
            let mut rest: &[u8] = raw.as_slice();
            let ghost done: Seq<Seq<u8>> = seq![];
            while rest.len() > 0
                invariant
                    ls == done + lines(rest@),
                    content@ == marked_lines(done, key@, timestamp@, old@),
                decreases rest@.len(),
            {
                let (line, next) = split_first_line(rest);
                marked_line_exec(&mut content, line, key, timestamp, old.as_slice());
                proof {
                    let d1 = done.push(line@);
                    assert(d1.drop_last() =~= done);
                    assert(d1.last() == line@);
                    assert(done + lines(rest@) =~= d1 + lines(next@));
                    done = d1;
                }
                rest = next;
            }
            assert(lines(rest@) =~= seq![]);
            assert(done + seq![] =~= done);
            push_all(&mut content, fact_line_exec(key, value, timestamp).as_slice());
            let mut archive = file_text_exec(archive_file);
            push_all(&mut archive, key);
            push_all(&mut archive, ascii_bytes(" = ").as_slice());
            push_all(&mut archive, old.as_slice());
            push_all(&mut archive, ascii_bytes(" [valid_until: ").as_slice());
            push_all(&mut archive, timestamp);
            push_all(&mut archive, ascii_bytes(", superseded_by: ").as_slice());
            push_all(&mut archive, value);
            push_all(&mut archive, ascii_bytes("]\n").as_slice());
            assert(archive@ =~= file_text(crate::web::bytes_opt(archive_file)) + superseded_line(key@, old@, timestamp@, value@));
            let mut warning = ascii_bytes("Fact updated: ");
            push_all(&mut warning, key);
            push_all(&mut warning, ascii_bytes(" = \"").as_slice());
            push_all(&mut warning, value);
            push_all(&mut warning, ascii_bytes("\" (was: \"").as_slice());
            push_all(&mut warning, old.as_slice());
            push_all(&mut warning, ascii_bytes("\")").as_slice());
            let mut m: Vec<(Vec<u8>, JsonValue)> = Vec::new();
            assert(jentries(m@) =~= seq![]);
            object_insert(&mut m, ascii_bytes("updated"), JsonValue::Bool(true));
            object_insert(&mut m, ascii_bytes("contradiction"), JsonValue::Bool(true));
            object_insert(&mut m, ascii_bytes("warning"), JsonValue::Str(warning));
            FactsUpdate {
                reply: ToolResult::success(call_id, JsonValue::Object(m), 0),
                facts_kv: Some(content),
                superseded_kv: Some(archive),
            }
        },
        None => if same {
            let mut m: Vec<(Vec<u8>, JsonValue)> = Vec::new();
            assert(jentries(m@) =~= seq![]);
            object_insert(&mut m, ascii_bytes("updated"), JsonValue::Bool(false));
            object_insert(&mut m, ascii_bytes("reason"), JsonValue::Str(ascii_bytes("value unchanged")));
            FactsUpdate { reply: ToolResult::success(call_id, JsonValue::Object(m), 0), facts_kv: None, superseded_kv: None }
        } else {
            let mut content = raw;
            push_all(&mut content, fact_line_exec(key, value, timestamp).as_slice());
            let mut m: Vec<(Vec<u8>, JsonValue)> = Vec::new();
            assert(jentries(m@) =~= seq![]);
            object_insert(&mut m, ascii_bytes("updated"), JsonValue::Bool(true));
            object_insert(&mut m, ascii_bytes("contradiction"), JsonValue::Bool(false));
            FactsUpdate {
                reply: ToolResult::success(call_id, JsonValue::Object(m), 0),
                facts_kv: Some(content),
                superseded_kv: None,
            }
        },
    }
}

// ---------------------------------------------------------------------
// memory.log_turn
// ---------------------------------------------------------------------

/// `memory.log_turn`, given the session journal (`None` when missing):
/// the `data` argument is appended to the journal as one JSON line.
pub fn tool_log_turn(args: &JsonValue, call_id: &[u8], journal: Option<&[u8]>) -> (r: (ToolResult, Option<Vec<u8>>))
    ensures
        match crate::json::jget(args@, lit("data")) {
            None => r.0@ == missing_arg(call_id@, lit("missing 'data'")) && r.1 is None,
            Some(d) => r.0@ == success_model(call_id@, JModel::Bool(true), 0) && opt_vec(r.1) == Some(
                file_text(crate::web::bytes_opt(journal)) + jtext(d) + seq![10u8],
            ),
        },
{
    proof {
        reveal_strlit("data");
        reveal_strlit("missing 'data'");
    }
    match args.get(ascii_bytes("data").as_slice()) {
        None => (missing(call_id, "missing 'data'"), None),
        Some(d) => {
            let mut content = file_text_exec(journal);
            push_all(&mut content, d.to_json_string().as_slice());
            content.push(10);
            (ToolResult::success(call_id, JsonValue::Bool(true), 0), Some(content))
        },
    }
}

// ---------------------------------------------------------------------
// memory.store
// ---------------------------------------------------------------------

/// Where `memory.store` files an entry, and how it is indexed.
#[derive(Debug)]
pub struct StoredEntry {
    /// The hall file written (always under the `general` wing).
    pub file_path: Vec<u8>,
    pub content: Vec<u8>,
    /// The path, wing and hall the search index records.
    pub index_path: Vec<u8>,
    pub wing: Vec<u8>,
    pub hall: Hall,
}

/// The path the index records for an entry: under its own wing.
pub open spec fn index_path(wing: Seq<u8>, hall: Hall, session_id: Seq<u8>, turn: nat) -> Seq<u8> {
    lit("\\palace\\wings\\") + wing + lit("\\halls\\") + hall_bytes(hall) + seq![92u8] + session_id + seq![95u8]
        + crate::text::zero_pad(dec(turn), 4) + lit(".txt")
}

/// The hall a `hall` argument names (discoveries when absent or unknown).
pub open spec fn store_hall(args: JModel) -> Hall {
    match str_at(args, lit("hall")) {
        Some(h) => match crate::palace::spec_hall_from(h) {
            Some(x) => x,
            None => Hall::Discoveries,
        },
        None => Hall::Discoveries,
    }
}

/// `memory.store`: the entry to file and index and the reply, or the
/// refusal of a call without `content`.
pub fn tool_store(args: &JsonValue, call_id: &[u8], session_id: &[u8], turn: usize) -> (r: Result<(StoredEntry, ToolResult), ToolResult>)
    ensures
        match str_at(args@, lit("content")) {
            None => r matches Err(e) && e@ == missing_arg(call_id@, lit("missing 'content'")),
            Some(c) => r matches Ok(p) && {
                let wing = match str_at(args@, lit("wing")) {
                    Some(w) => w,
                    None => lit("general"),
                };
                let hall = store_hall(args@);
                let ip = index_path(wing, hall, session_id@, turn as nat);
                &&& p.0.content@ == c
                &&& p.0.hall == hall
                &&& p.0.wing@ == wing
                &&& p.0.file_path@ == crate::palace::spec_hall_entry_path(hall, session_id@, turn as nat)
                &&& p.0.index_path@ == ip
                &&& p.1@ == success_model(
                    call_id@,
                    JModel::Object(
                        jinsert(
                            jinsert(
                                jinsert(seq![], lit("entry_id"), JModel::Str(session_id@ + seq![58u8] + dec(turn as nat))),
                                lit("path"),
                                JModel::Str(ip),
                            ),
                            lit("indexed"),
                            JModel::Bool(true),
                        ),
                    ),
                    0,
                )
            },
        },
{
    proof {
        reveal_strlit("content");
        reveal_strlit("wing");
        reveal_strlit("hall");
        reveal_strlit("general");
        reveal_strlit("missing 'content'");
        reveal_strlit("\\palace\\wings\\");
        reveal_strlit("\\halls\\");
        reveal_strlit(".txt");
        reveal_strlit("entry_id");
        reveal_strlit("path");
        reveal_strlit("indexed");
    }
    let content = match str_arg(args, "content") {
        Some(c) => c,
        None => return Err(missing(call_id, "missing 'content'")),
    };
    let wing = match str_arg(args, "wing") {
        Some(w) => to_vec(w),
        None => ascii_bytes("general"),
    };
    let hall = match str_arg(args, "hall") {
        Some(h) => match Hall::from_str(h) {
            Some(x) => x,
            None => Hall::Discoveries,
        },
        None => Hall::Discoveries,
    };
    let file_path = crate::palace::hall_entry_path(hall, session_id, turn);
    let mut ip = ascii_bytes("\\palace\\wings\\");
    push_all(&mut ip, wing.as_slice());
    push_all(&mut ip, ascii_bytes("\\halls\\").as_slice());
    push_all(&mut ip, hall.name_bytes().as_slice());
    ip.push(92);
    push_all(&mut ip, session_id);
    ip.push(95);
    crate::text::push_dec_padded(&mut ip, turn as u64, 4);
    push_all(&mut ip, ascii_bytes(".txt").as_slice());
    let mut entry_id = to_vec(session_id);
    entry_id.push(58);
    crate::text::push_dec(&mut entry_id, turn as u64);
    assert(entry_id@ =~= session_id@ + seq![58u8] + dec(turn as nat));
    assert(ip@ =~= index_path(wing@, hall, session_id@, turn as nat));
    let mut m: Vec<(Vec<u8>, JsonValue)> = Vec::new();
    assert(jentries(m@) =~= seq![]);
    object_insert(&mut m, ascii_bytes("entry_id"), JsonValue::Str(entry_id));
    object_insert(&mut m, ascii_bytes("path"), JsonValue::Str(to_vec(ip.as_slice())));
    object_insert(&mut m, ascii_bytes("indexed"), JsonValue::Bool(true));
    let reply = ToolResult::success(call_id, JsonValue::Object(m), 0);
    Ok((StoredEntry { file_path, content: to_vec(content), index_path: ip, wing, hall }, reply))
}

// ---------------------------------------------------------------------
// memory.forget
// ---------------------------------------------------------------------

/// A `usize` in decimal, with an optional `+` sign before the digits.
pub open spec fn usize_of(s: Seq<u8>) -> Option<nat> {
    let d = if s.len() > 1 && s[0] == 43 {
        s.drop_first()
    } else {
        s
    };
    if d.len() > 0 && crate::text::all_digits(d) && crate::text::digits_value(d) <= usize::MAX {
        Some(crate::text::digits_value(d))
    } else {
        None
    }
}

fn parse_usize(s: &[u8]) -> (r: Option<usize>)
    ensures
        match r {
            Some(v) => usize_of(s@) == Some(v as nat),
            None => usize_of(s@) is None,
        },
{
    let d: &[u8] = if s.len() > 1 && s[0] == 43 {
        vstd::slice::slice_subrange(s, 1, s.len())
    } else {
        s
    };
    assert(s@.len() > 1 && s@[0] == 43 ==> d@ =~= s@.drop_first());
    match crate::text::parse_digits(d, usize::MAX as u64) {
        Some(v) => Some(v as usize),
        None => None,
    }
}

/// The session and turn an entry id `session:turn` names (exactly one
/// `:`), or the message of the refusal.
pub open spec fn entry_of(id: Seq<u8>) -> Result<(Seq<u8>, nat), Seq<u8>> {
    let parts = crate::text::split_on(id, 58);
    if parts.len() != 2 {
        Err(lit("entry_id must be 'session:turn'"))
    } else {
        match usize_of(parts[1]) {
            Some(t) => Ok((parts[0], t)),
            None => Err(lit("turn must be a number")),
        }
    }
}

/// `memory.forget` before looking for the entry: its id, session and
/// turn, or the refusal.
pub fn forget_request(args: &JsonValue, call_id: &[u8]) -> (r: Result<(Vec<u8>, Vec<u8>, usize), ToolResult>)
    ensures
        match str_at(args@, lit("entry_id")) {
            None => r matches Err(e) && e@ == missing_arg(call_id@, lit("missing 'entry_id'")),
            Some(id) => match entry_of(id) {
                Ok((sess, t)) => r matches Ok(p) && p.0@ == id && p.1@ == sess && p.2 as nat == t,
                Err(msg) => r matches Err(e) && e@ == missing_arg(call_id@, msg),
            },
        },
{
    proof {
        reveal_strlit("entry_id");
        reveal_strlit("missing 'entry_id'");
        reveal_strlit("entry_id must be 'session:turn'");
        reveal_strlit("turn must be a number");
    }
    let id = match str_arg(args, "entry_id") {
        Some(i) => i,
        None => return Err(missing(call_id, "missing 'entry_id'")),
    };
    let parts = crate::text::split_bytes(id, 58);
    assert(parts@.len() == crate::text::split_on(id@, 58).len());
    if parts.len() != 2 {
        return Err(missing(call_id, "entry_id must be 'session:turn'"));
    }
    match parse_usize(parts[1]) {
        Some(t) => Ok((to_vec(id), to_vec(parts[0]), t)),
        None => Err(missing(call_id, "turn must be a number")),
    }
}

/// Where a forgotten entry is archived.
pub open spec fn archive_path(session_id: Seq<u8>, turn: nat, hall: Hall) -> Seq<u8> {
    lit("\\palace\\archive\\") + session_id + seq![95u8] + crate::text::zero_pad(dec(turn), 4) + seq![95u8] + hall_bytes(hall)
        + lit(".txt")
}

/// Where a forgotten entry of a hall is archived.
pub fn forget_archive_path(session_id: &[u8], turn: usize, hall: Hall) -> (r: Vec<u8>)
    ensures
        r@ == archive_path(session_id@, turn as nat, hall),
{
    proof {
        reveal_strlit("\\palace\\archive\\");
        reveal_strlit(".txt");
    }
    let mut p = ascii_bytes("\\palace\\archive\\");
    push_all(&mut p, session_id);
    p.push(95);
    crate::text::push_dec_padded(&mut p, turn as u64, 4);
    p.push(95);
    push_all(&mut p, hall.name_bytes().as_slice());
    push_all(&mut p, ascii_bytes(".txt").as_slice());
    p
}

/// `memory.forget` once the halls were searched: archived, or not found.
pub fn forget_reply(call_id: &[u8], entry_id: &[u8], found: bool) -> (r: ToolResult)
    ensures
        r@ == (if found {
            success_model(
                call_id@,
                JModel::Object(jinsert(jinsert(seq![], lit("archived"), JModel::Bool(true)), lit("entry_id"), JModel::Str(entry_id@))),
                0,
            )
        } else {
            failure_model(call_id@, lit("not_found"), lit("entry not found in palace"), false)
        }),
{
    proof {
        reveal_strlit("archived");
        reveal_strlit("entry_id");
        reveal_strlit("not_found");
        reveal_strlit("entry not found in palace");
    }
    if found {
        let mut m: Vec<(Vec<u8>, JsonValue)> = Vec::new();
        assert(jentries(m@) =~= seq![]);
        object_insert(&mut m, ascii_bytes("archived"), JsonValue::Bool(true));
        object_insert(&mut m, ascii_bytes("entry_id"), JsonValue::Str(to_vec(entry_id)));
        ToolResult::success(call_id, JsonValue::Object(m), 0)
    } else {
        ToolResult::failure(call_id, ascii_bytes("not_found").as_slice(), ascii_bytes("entry not found in palace").as_slice(), false)
    }
}

// ---------------------------------------------------------------------
// memory.consolidate
// ---------------------------------------------------------------------

/// The files after setting facts one after another, each set reading the
/// files as the one before left them.
pub open spec fn apply_facts(
    facts_file: Option<Seq<u8>>,
    archive_file: Option<Seq<u8>>,
    kvs: Seq<(Seq<u8>, Seq<u8>)>,
    ts: Seq<u8>,
) -> (Option<Seq<u8>>, Option<Seq<u8>>)
    decreases kvs.len(),
{
    if kvs.len() == 0 {
        (facts_file, archive_file)
    } else {
        let (f0, a0) = apply_facts(facts_file, archive_file, kvs.drop_last(), ts);
        let m = set_fact(lit("consolidate"), kvs.last().0, kvs.last().1, ts, f0, a0);
        (
            if m.facts_kv is Some {
                m.facts_kv
            } else {
                f0
            },
            if m.superseded_kv is Some {
                m.superseded_kv
            } else {
                a0
            },
        )
    }
}

/// The journal lines a consolidation reads: the last `n` non-blank ones
/// (text that is not UTF-8 has none).
pub open spec fn scanned_lines(data: Seq<u8>, n: nat) -> Seq<Seq<u8>> {
    let text = if vstd::utf8::valid_utf8(data) {
        data
    } else {
        seq![]
    };
    last_n(non_blank(lines(text)), n)
}

/// The outcome of a consolidation: the reply and the files it leaves.
pub struct Consolidation {
    pub reply: ToolResult,
    pub facts_kv: Option<Vec<u8>>,
    pub superseded_kv: Option<Vec<u8>>,
}

/// `memory.consolidate`, given the session journal and the facts files
/// (`None` when missing): the facts stated in the outputs of the last `n`
/// journal entries (20 by default) are set in turn, each as
/// `memory.facts_set` would; the reply counts entries, facts and updates.
/// Without a journal it is refused.
#[verifier::rlimit(80)]
#[verifier::spinoff_prover]
pub fn tool_consolidate(
    args: &JsonValue,
    call_id: &[u8],
    timestamp: &[u8],
    journal: Option<&[u8]>,
    facts_file: Option<&[u8]>,
    archive_file: Option<&[u8]>,
) -> (r: Consolidation)
    ensures
        match journal {
            None => r.reply@ == failure_model(call_id@, lit("no_journal"), lit("no session journal found"), false)
                && opt_vec(r.facts_kv) == crate::web::bytes_opt(facts_file) && opt_vec(r.superseded_kv) == crate::web::bytes_opt(
                archive_file,
            ),
            Some(data) => {
                let n = crate::web::count_arg(args@, lit("n"), 20);
                let scanned = scanned_lines(data@, n);
                let facts = journal_yield(data@, n).0;
                &&& (opt_vec(r.facts_kv), opt_vec(r.superseded_kv)) == apply_facts(
                    crate::web::bytes_opt(facts_file),
                    crate::web::bytes_opt(archive_file),
                    facts,
                    timestamp@,
                )
                &&& r.reply@ == success_model(
                    call_id@,
                    JModel::Object(
                        jinsert(
                            jinsert(
                                jinsert(seq![], lit("entries_scanned"), JModel::Number(dec(scanned.len()))),
                                lit("facts_extracted"),
                                JModel::Number(dec(facts.len())),
                            ),
                            lit("facts_updated"),
                            JModel::Number(dec(facts.len())),
                        ),
                    ),
                    0,
                )
            },
        },
{
    proof {
        reveal_strlit("n");
        reveal_strlit("no_journal");
        reveal_strlit("no session journal found");
        reveal_strlit("entries_scanned");
        reveal_strlit("facts_extracted");
        reveal_strlit("facts_updated");
        reveal_strlit("consolidate");
    }
    let data = match journal {
        None => {
            let f = match facts_file {
                Some(d) => Some(to_vec(d)),
                None => None,
            };
            let a = match archive_file {
                Some(d) => Some(to_vec(d)),
                None => None,
            };
            return Consolidation {
                reply: ToolResult::failure(
                    call_id,
                    ascii_bytes("no_journal").as_slice(),
                    ascii_bytes("no session journal found").as_slice(),
                    false,
                ),
                facts_kv: f,
                superseded_kv: a,
            };
        },
        Some(d) => d,
    };
    let n = crate::web::count_arg_exec(args, ascii_bytes("n").as_slice(), 20);
    let empty: &[u8] = vstd::slice::slice_subrange(data, 0, 0);
    let text: &[u8] = if crate::text::is_utf8(data) {
        data
    } else {
        empty
    };
    let all = crate::consolidate::non_blank_lines(text);
    let start = if all.len() > n {
        all.len() - n
    } else {
        0
    };
    let ghost ls = all@.map_values(|l: &[u8]| l@);
    let ghost recent = ls.subrange(start as int, ls.len() as int);
    assert(recent =~= scanned_lines(data@, n as nat));
    let scanned = all.len() - start;
    // the facts stated in the scanned entries
    let mut extracted: Vec<(Vec<u8>, Vec<u8>)> = Vec::new();
    assert(pairs_view(extracted@) =~= seq![]);
    let mut i = start;
    while i < all.len()
        invariant
            start <= i <= all@.len(),
            ls == all@.map_values(|l: &[u8]| l@),
            pairs_view(extracted@) == crate::consolidate::lines_yield(ls.subrange(start as int, i as int)).0,
        decreases all.len() - i,
    {
        let (facts, _entry) = crate::consolidate::line_contribution(all[i]);
        let ghost f0 = pairs_view(extracted@);
        let mut k: usize = 0;
        while k < facts.len()
            invariant
                0 <= k <= facts@.len(),
                pairs_view(extracted@) == f0 + pairs_view(facts@).subrange(0, k as int),
            decreases facts.len() - k,
        {
            let ghost x0 = extracted@;
            extracted.push((to_vec(facts[k].0.as_slice()), to_vec(facts[k].1.as_slice())));
            assert(pairs_view(extracted@) =~= pairs_view(x0).push(pairs_view(facts@)[k as int]));
            assert(pairs_view(facts@).subrange(0, k + 1) =~= pairs_view(facts@).subrange(0, k as int).push(
                pairs_view(facts@)[k as int],
            ));
            k = k + 1;
        }
        assert(pairs_view(facts@).subrange(0, k as int) =~= pairs_view(facts@));
        assert(crate::compact::kv_view(facts@) =~= pairs_view(facts@));
        assert(ls.subrange(start as int, i + 1).drop_last() =~= ls.subrange(start as int, i as int));
        i = i + 1;
    }
    assert(ls.subrange(start as int, i as int) =~= recent);
    let ghost ex = pairs_view(extracted@);
    assert(ex == journal_yield(data@, n as nat).0);
    // set them in turn
    let mut f: Option<Vec<u8>> = match facts_file {
        Some(d) => Some(to_vec(d)),
        None => None,
    };
    let mut a: Option<Vec<u8>> = match archive_file {
        Some(d) => Some(to_vec(d)),
        None => None,
    };
    let cid = ascii_bytes("consolidate");
    let mut j: usize = 0;
    assert(ex.subrange(0, 0) =~= Seq::<(Seq<u8>, Seq<u8>)>::empty());
    while j < extracted.len()
        invariant
            0 <= j <= extracted@.len(),
            ex == pairs_view(extracted@),
            cid@ == lit("consolidate"),
            (opt_vec(f), opt_vec(a)) == apply_facts(
                crate::web::bytes_opt(facts_file),
                crate::web::bytes_opt(archive_file),
                ex.subrange(0, j as int),
                timestamp@,
            ),
        decreases extracted.len() - j,
    {
        let fr: Option<&[u8]> = match &f {
            Some(x) => Some(x.as_slice()),
            None => None,
        };
        let ar: Option<&[u8]> = match &a {
            Some(x) => Some(x.as_slice()),
            None => None,
        };
        assert(crate::web::bytes_opt(fr) == opt_vec(f));
        assert(crate::web::bytes_opt(ar) == opt_vec(a));
        let upd = set_fact_exec(cid.as_slice(), extracted[j].0.as_slice(), extracted[j].1.as_slice(), timestamp, fr, ar);
        proof {
            let sub = ex.subrange(0, j + 1);
            assert(sub.drop_last() =~= ex.subrange(0, j as int));
            assert(sub.last() == (extracted@[j as int].0@, extracted@[j as int].1@));
        }
        match upd.facts_kv {
            Some(x) => f = Some(x),
            None => {},
        }
        match upd.superseded_kv {
            Some(x) => a = Some(x),
            None => {},
        }
        j = j + 1;
    }
    assert(ex.subrange(0, j as int) =~= ex);
    let count = extracted.len();
    let mut m: Vec<(Vec<u8>, JsonValue)> = Vec::new();
    assert(jentries(m@) =~= seq![]);
    object_insert(&mut m, ascii_bytes("entries_scanned"), json_u64(scanned as u64));
    object_insert(&mut m, ascii_bytes("facts_extracted"), json_u64(count as u64));
    object_insert(&mut m, ascii_bytes("facts_updated"), json_u64(count as u64));
    Consolidation { reply: ToolResult::success(call_id, JsonValue::Object(m), 0), facts_kv: f, superseded_kv: a }
}

} // verus!
