use genos::json::{json_object, JsonValue};
use genos::memory::{forget_archive_path, forget_reply, forget_request, tool_consolidate, tool_facts_get, tool_facts_set, tool_log_turn, tool_store};
use genos::palace::Hall;

fn s(x: &str) -> Vec<u8> {
    x.as_bytes().to_vec()
}

fn kv(k: &str, v: &str) -> JsonValue {
    json_object(vec![(s("key"), JsonValue::Str(s(k))), (s("value"), JsonValue::Str(s(v)))])
}

#[test]
fn facts_set_new_key_appends() {
    let u = tool_facts_set(&kv("color", "blue"), b"c1", b"T1", Some(b"name = Ada\n"), None);
    assert!(u.reply.ok);
    assert_eq!(u.facts_kv, Some(s("name = Ada\ncolor = blue [valid_from: T1]\n")));
    assert_eq!(u.superseded_kv, None);
    assert_eq!(u.reply.result.get(b"contradiction").and_then(|v| v.as_bool()), Some(false));
}

#[test]
fn facts_set_same_value_writes_nothing() {
    let u = tool_facts_set(&kv("name", "Ada"), b"c1", b"T1", Some(b"name = Ada\n"), None);
    assert!(u.reply.ok);
    assert_eq!(u.facts_kv, None);
    assert_eq!(u.reply.result.get(b"updated").and_then(|v| v.as_bool()), Some(false));
    assert_eq!(u.reply.result.get(b"reason").and_then(|v| v.as_str()), Some(&b"value unchanged"[..]));
}

#[test]
fn facts_set_contradiction_supersedes_and_archives() {
    let u = tool_facts_set(&kv("name", "Grace"), b"c1", b"T2", Some(b"# facts\nname = Ada\nx = 1\n"), Some(b"old\n"));
    assert_eq!(
        u.facts_kv,
        Some(s("# facts\nname = Ada [superseded: T2, was: Ada]\nx = 1\nname = Grace [valid_from: T2]\n"))
    );
    assert_eq!(u.superseded_kv, Some(s("old\nname = Ada [valid_until: T2, superseded_by: Grace]\n")));
    assert_eq!(
        u.reply.result.get(b"warning").and_then(|v| v.as_str()),
        Some(&b"Fact updated: name = \"Grace\" (was: \"Ada\")"[..])
    );
}

#[test]
fn facts_set_missing_args() {
    let u = tool_facts_set(&json_object(vec![]), b"c", b"T", None, None);
    assert_eq!(u.reply.error.unwrap().message, s("missing 'key'"));
    let u = tool_facts_set(&json_object(vec![(s("key"), JsonValue::Str(s("k")))]), b"c", b"T", None, None);
    assert_eq!(u.reply.error.unwrap().message, s("missing 'value'"));
}

#[test]
fn facts_get_lists_pairs() {
    let r = tool_facts_get(b"c", Some(b"a = 1\n[hdr]\nb=2\n"));
    let arr = r.result.as_array().unwrap();
    assert_eq!(arr.len(), 2);
    assert_eq!(arr[1].get(b"key").and_then(|v| v.as_str()), Some(&b"b"[..]));
    assert_eq!(arr[1].get(b"value").and_then(|v| v.as_str()), Some(&b"2"[..]));
    assert!(tool_facts_get(b"c", None).result.as_array().unwrap().is_empty());
}

#[test]
fn log_turn_appends_json_line() {
    let args = json_object(vec![(s("data"), json_object(vec![(s("x"), JsonValue::Bool(true))]))]);
    let (r, j) = tool_log_turn(&args, b"c", Some(b"line1\n"));
    assert!(r.ok);
    assert_eq!(j, Some(s("line1\n{\"x\":true}\n")));
    let (r, j) = tool_log_turn(&json_object(vec![]), b"c", None);
    assert!(!r.ok);
    assert_eq!(j, None);
}

#[test]
fn store_files_under_general_and_indexes_under_wing() {
    let args = json_object(vec![
        (s("content"), JsonValue::Str(s("hello"))),
        (s("wing"), JsonValue::Str(s("proj"))),
        (s("hall"), JsonValue::Str(s("facts"))),
    ]);
    let (e, r) = tool_store(&args, b"c", b"session_1", 7).unwrap();
    assert_eq!(e.file_path, s("\\palace\\wings\\general\\halls\\facts\\session_1_0007.txt"));
    assert_eq!(e.index_path, s("\\palace\\wings\\proj\\halls\\facts\\session_1_0007.txt"));
    assert_eq!(e.hall, Hall::Facts);
    assert_eq!(r.result.get(b"entry_id").and_then(|v| v.as_str()), Some(&b"session_1:7"[..]));
    let bad = json_object(vec![(s("content"), JsonValue::Str(s("x"))), (s("hall"), JsonValue::Str(s("nope")))]);
    assert_eq!(tool_store(&bad, b"c", b"s", 1).unwrap().0.hall, Hall::Discoveries);
    assert!(tool_store(&json_object(vec![]), b"c", b"s", 1).is_err());
}

#[test]
fn forget_parses_entry_ids() {
    let ok = forget_request(&json_object(vec![(s("entry_id"), JsonValue::Str(s("sess:+12")))]), b"c").unwrap();
    assert_eq!(ok, (s("sess:+12"), s("sess"), 12));
    let e = forget_request(&json_object(vec![(s("entry_id"), JsonValue::Str(s("a:b:c")))]), b"c").unwrap_err();
    assert_eq!(e.error.unwrap().message, s("entry_id must be 'session:turn'"));
    let e = forget_request(&json_object(vec![(s("entry_id"), JsonValue::Str(s("a:x")))]), b"c").unwrap_err();
    assert_eq!(e.error.unwrap().message, s("turn must be a number"));
    assert_eq!(forget_archive_path(b"sess", 12, Hall::Events), s("\\palace\\archive\\sess_0012_events.txt"));
    assert!(forget_reply(b"c", b"sess:12", true).ok);
    assert_eq!(forget_reply(b"c", b"sess:12", false).error.unwrap().code, s("not_found"));
}

#[test]
fn consolidate_sets_facts_from_journal() {
    let journal = b"{\"output\":\"name = Ada\\nnoise\"}\n\n{\"output\":\"name = Grace\"}\n";
    let c = tool_consolidate(&json_object(vec![]), b"c", b"T", Some(journal), None, None);
    assert!(c.reply.ok);
    assert_eq!(c.reply.result.get(b"entries_scanned").and_then(|v| v.as_number()), Some(&b"2"[..]));
    assert_eq!(c.reply.result.get(b"facts_extracted").and_then(|v| v.as_number()), Some(&b"2"[..]));
    assert_eq!(
        c.facts_kv,
        Some(s("name = Ada [valid_from: T] [superseded: T, was: Ada [valid_from: T]]\nname = Grace [valid_from: T]\n"))
    );
    assert_eq!(c.superseded_kv, Some(s("name = Ada [valid_from: T] [valid_until: T, superseded_by: Grace]\n")));
    let none = tool_consolidate(&json_object(vec![]), b"c", b"T", None, None, None);
    assert_eq!(none.reply.error.unwrap().code, s("no_journal"));
}
