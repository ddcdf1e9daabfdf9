//! The record of one turn, as journalled: a JSONL line for the session
//! journal and a verbatim entry for the hall the turn was filed under.

use vstd::prelude::*;

use crate::json::{jentries, jinsert, json_u64, jtext, jviews, object_insert, JModel, JsonValue};
use crate::palace::{hall_bytes, hall_entry, spec_hall_entry, Hall};
use crate::text::{ascii_bytes, dec, lit, to_vec};

verus! {

/// A complete turn: who, when, which hall, what was said, and the tool
/// calls made.
pub struct TurnRecord {
    pub session_id: Vec<u8>,
    pub turn: usize,
    pub timestamp: Vec<u8>,
    pub hall: Hall,
    pub input: Vec<u8>,
    pub output: Vec<u8>,
    pub tool_calls: Vec<JsonValue>,
}

/// The journal object of a turn (wing `general`).
pub open spec fn turn_json(
    session_id: Seq<u8>,
    turn: nat,
    ts: Seq<u8>,
    hall: Hall,
    input: Seq<u8>,
    output: Seq<u8>,
    calls: Seq<JModel>,
) -> JModel {
    JModel::Object(
        jinsert(
            jinsert(
                jinsert(
                    jinsert(
                        jinsert(
                            jinsert(
                                jinsert(
                                    jinsert(seq![], lit("session_id"), JModel::Str(session_id)),
                                    lit("turn"),
                                    JModel::Number(dec(turn)),
                                ),
                                lit("ts"),
                                JModel::Str(ts),
                            ),
                            lit("hall"),
                            JModel::Str(hall_bytes(hall)),
                        ),
                        lit("wing"),
                        JModel::Str(lit("general")),
                    ),
                    lit("input"),
                    JModel::Str(input),
                ),
                lit("output"),
                JModel::Str(output),
            ),
            lit("tool_calls"),
            JModel::Array(calls),
        ),
    )
}

impl TurnRecord {
    /// The session journal line of the turn (without the line break).
    pub fn to_jsonl(&self) -> (r: Vec<u8>)
        ensures
            r@ == jtext(
                turn_json(
                    self.session_id@,
                    self.turn as nat,
                    self.timestamp@,
                    self.hall,
                    self.input@,
                    self.output@,
                    jviews(self.tool_calls@),
                ),
            ),
    {
        proof {
            reveal_strlit("session_id");
            reveal_strlit("turn");
            reveal_strlit("ts");
            reveal_strlit("hall");
            reveal_strlit("wing");
            reveal_strlit("general");
            reveal_strlit("input");
            reveal_strlit("output");
            reveal_strlit("tool_calls");
        }
        let mut calls: Vec<JsonValue> = Vec::new();
        let mut i: usize = 0;
        while i < self.tool_calls.len()
            invariant
                0 <= i <= self.tool_calls@.len(),
                jviews(calls@) == jviews(self.tool_calls@.subrange(0, i as int)),
            decreases self.tool_calls.len() - i,
        {
            let ghost c0 = calls@;
            calls.push(self.tool_calls[i].duplicate());
            assert(calls@.drop_last() =~= c0);
            assert(self.tool_calls@.subrange(0, i + 1).drop_last() =~= self.tool_calls@.subrange(0, i as int));
            i = i + 1;
        }
        assert(self.tool_calls@.subrange(0, i as int) =~= self.tool_calls@);
        let mut m: Vec<(Vec<u8>, JsonValue)> = Vec::new();
        assert(jentries(m@) =~= seq![]);
        object_insert(&mut m, ascii_bytes("session_id"), JsonValue::Str(to_vec(self.session_id.as_slice())));
        object_insert(&mut m, ascii_bytes("turn"), json_u64(self.turn as u64));
        object_insert(&mut m, ascii_bytes("ts"), JsonValue::Str(to_vec(self.timestamp.as_slice())));
        object_insert(&mut m, ascii_bytes("hall"), JsonValue::Str(self.hall.name_bytes()));
        object_insert(&mut m, ascii_bytes("wing"), JsonValue::Str(ascii_bytes("general")));
        object_insert(&mut m, ascii_bytes("input"), JsonValue::Str(to_vec(self.input.as_slice())));
        object_insert(&mut m, ascii_bytes("output"), JsonValue::Str(to_vec(self.output.as_slice())));
        object_insert(&mut m, ascii_bytes("tool_calls"), JsonValue::Array(calls));
        JsonValue::Object(m).to_json_string()
    }

    /// The verbatim entry of the turn in its hall.
    pub fn hall_text(&self) -> (r: Vec<u8>)
        ensures
            r@ == spec_hall_entry(self.turn as nat, self.timestamp@, self.hall, self.input@, self.output@),
    {
        hall_entry(self.turn, self.timestamp.as_slice(), self.hall, self.input.as_slice(), self.output.as_slice())
    }
}

} // verus!
