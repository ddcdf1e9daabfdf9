//! System tools: `sys.clock` and `sys.introspect`, given the clock and
//! memory readings the firmware reported.

use vstd::prelude::*;

use crate::hal::{spec_iso8601, MemInfo, WallTime};
use crate::json::{jentries, jinsert, json_u64, object_insert, JModel, JsonValue};
use crate::registry::{failure_model, success_model, ResultModel, ToolResult};
use crate::text::{ascii_bytes, dec, lit};

verus! {

/// The reply of `sys.clock`: the wall time and uptime, or a retryable
/// `clock_error` when the firmware has no time.
pub open spec fn clock_model(call_id: Seq<u8>, wall: Option<WallTime>, uptime_ms: u64) -> ResultModel {
    match wall {
        Some(w) => success_model(
            call_id,
            JModel::Object(
                jinsert(jinsert(seq![], lit("iso8601"), JModel::Str(spec_iso8601(w))), lit("uptime_ms"), JModel::Number(dec(uptime_ms as nat))),
            ),
            0,
        ),
        None => failure_model(call_id, lit("clock_error"), lit("UEFI GetTime() unavailable"), true),
    }
}

/// `sys.clock`, given the firmware's wall time (if any) and the uptime.
pub fn tool_clock(call_id: &[u8], wall: Option<WallTime>, uptime_ms: u64) -> (r: ToolResult)
    ensures
        r@ == clock_model(call_id@, wall, uptime_ms),
{
    proof {
        reveal_strlit("iso8601");
        reveal_strlit("uptime_ms");
        reveal_strlit("clock_error");
        reveal_strlit("UEFI GetTime() unavailable");
    }
    match wall {
        Some(w) => {
            let mut m: Vec<(Vec<u8>, JsonValue)> = Vec::new();
            assert(jentries(m@) =~= seq![]);
            object_insert(&mut m, ascii_bytes("iso8601"), JsonValue::Str(w.iso8601()));
            object_insert(&mut m, ascii_bytes("uptime_ms"), json_u64(uptime_ms));
            ToolResult::success(call_id, JsonValue::Object(m), 0)
        },
        None => ToolResult::failure(
            call_id,
            ascii_bytes("clock_error").as_slice(),
            ascii_bytes("UEFI GetTime() unavailable").as_slice(),
            true,
        ),
    }
}

/// The reply of `sys.introspect`: uptime, the model and its limits, the
/// build, and free and total memory.
pub open spec fn introspect_model(call_id: Seq<u8>, uptime_ms: u64, mem: MemInfo) -> ResultModel {
    success_model(
        call_id,
        JModel::Object(
            jinsert(
                jinsert(
                    jinsert(
                        jinsert(
                            jinsert(
                                jinsert(
                                    jinsert(
                                        jinsert(seq![], lit("uptime_ms"), JModel::Number(dec(uptime_ms as nat))),
                                        lit("model"),
                                        JModel::Str(lit("stories15m")),
                                    ),
                                    lit("vocab_size"),
                                    JModel::Number(dec(32000)),
                                ),
                                lit("max_seq_len"),
                                JModel::Number(dec(256)),
                            ),
                            lit("phase"),
                            JModel::Str(lit("B")),
                        ),
                        lit("version"),
                        JModel::Str(lit("0.1.0")),
                    ),
                    lit("ram_free_kb"),
                    JModel::Number(dec(mem.free_kb as nat)),
                ),
                lit("ram_total_kb"),
                JModel::Number(dec(mem.total_kb as nat)),
            ),
        ),
        0,
    )
}

/// `sys.introspect`, given the uptime and the memory reading.
pub fn tool_introspect(call_id: &[u8], uptime_ms: u64, mem: MemInfo) -> (r: ToolResult)
    ensures
        r@ == introspect_model(call_id@, uptime_ms, mem),
{
    proof {
        reveal_strlit("uptime_ms");
        reveal_strlit("model");
        reveal_strlit("stories15m");
        reveal_strlit("vocab_size");
        reveal_strlit("max_seq_len");
        reveal_strlit("phase");
        reveal_strlit("B");
        reveal_strlit("version");
        reveal_strlit("0.1.0");
        reveal_strlit("ram_free_kb");
        reveal_strlit("ram_total_kb");
    }
    let mut m: Vec<(Vec<u8>, JsonValue)> = Vec::new();
    assert(jentries(m@) =~= seq![]);
    object_insert(&mut m, ascii_bytes("uptime_ms"), json_u64(uptime_ms));
    object_insert(&mut m, ascii_bytes("model"), JsonValue::Str(ascii_bytes("stories15m")));
    object_insert(&mut m, ascii_bytes("vocab_size"), json_u64(32000));
    object_insert(&mut m, ascii_bytes("max_seq_len"), json_u64(256));
    object_insert(&mut m, ascii_bytes("phase"), JsonValue::Str(ascii_bytes("B")));
    object_insert(&mut m, ascii_bytes("version"), JsonValue::Str(ascii_bytes("0.1.0")));
    object_insert(&mut m, ascii_bytes("ram_free_kb"), json_u64(mem.free_kb));
    object_insert(&mut m, ascii_bytes("ram_total_kb"), json_u64(mem.total_kb));
    ToolResult::success(call_id, JsonValue::Object(m), 0)
}

} // verus!
