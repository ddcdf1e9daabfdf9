//! The tool executor's decisions: the policy check in front of every
//! built-in tool call and the handler each tool name routes to. The host
//! runs the handler and measures it.

use vstd::prelude::*;

use crate::policy::{count_of, spec_check, PolicyCheck, PolicyEngine, ToolPolicy};
use crate::registry::{failure_model, ResultModel, ToolCall, ToolResult};
use crate::text::{ascii_bytes, bytes_eq, lit};

verus! {

/// The handler a built-in tool call goes to.
#[derive(Debug, Clone, Copy, PartialEq, Eq, Structural)]
pub enum ToolRoute {
    FsRead,
    FsWrite,
    FsList,
    FsDelete,
    NetFetch,
    FactsGet,
    FactsSet,
    LogTurn,
    Store,
    Search,
    Consolidate,
    Forget,
    Clock,
    Introspect,
}

/// The handler of each built-in tool name.
pub open spec fn route_of(name: Seq<u8>) -> Option<ToolRoute> {
    if name == lit("fs.read") {
        Some(ToolRoute::FsRead)
    } else if name == lit("fs.write") {
        Some(ToolRoute::FsWrite)
    } else if name == lit("fs.list") {
        Some(ToolRoute::FsList)
    } else if name == lit("fs.delete") {
        Some(ToolRoute::FsDelete)
    } else if name == lit("net.fetch") {
        Some(ToolRoute::NetFetch)
    } else if name == lit("memory.facts_get") {
        Some(ToolRoute::FactsGet)
    } else if name == lit("memory.facts_set") {
        Some(ToolRoute::FactsSet)
    } else if name == lit("memory.log_turn") {
        Some(ToolRoute::LogTurn)
    } else if name == lit("memory.store") {
        Some(ToolRoute::Store)
    } else if name == lit("memory.search") {
        Some(ToolRoute::Search)
    } else if name == lit("memory.consolidate") {
        Some(ToolRoute::Consolidate)
    } else if name == lit("memory.forget") {
        Some(ToolRoute::Forget)
    } else if name == lit("sys.clock") {
        Some(ToolRoute::Clock)
    } else if name == lit("sys.introspect") {
        Some(ToolRoute::Introspect)
    } else {
        None
    }
}

/// The reply to a call of a tool without a handler.
pub open spec fn unknown_tool_reply(call_id: Seq<u8>) -> ResultModel {
    failure_model(call_id, lit("unknown_tool"), lit("tool not found in registry"), false)
}

fn is(tool: &[u8], name: &str) -> (r: bool)
    requires
        name.is_ascii(),
    ensures
        r == (tool@ == lit(name)),
{
    bytes_eq(tool, ascii_bytes(name).as_slice())
}

/// Routes a tool name to its handler; unknown tools fail.
pub fn dispatch(tool: &[u8], call_id: &[u8]) -> (r: Result<ToolRoute, ToolResult>)
    ensures
        match r {
            Ok(x) => route_of(tool@) == Some(x),
            Err(t) => route_of(tool@) is None && t@ == unknown_tool_reply(call_id@),
        },
{
    proof {
        reveal_strlit("fs.read");
        reveal_strlit("fs.write");
        reveal_strlit("fs.list");
        reveal_strlit("fs.delete");
        reveal_strlit("net.fetch");
        reveal_strlit("memory.facts_get");
        reveal_strlit("memory.facts_set");
        reveal_strlit("memory.log_turn");
        reveal_strlit("memory.store");
        reveal_strlit("memory.search");
        reveal_strlit("memory.consolidate");
        reveal_strlit("memory.forget");
        reveal_strlit("sys.clock");
        reveal_strlit("sys.introspect");
        reveal_strlit("unknown_tool");
        reveal_strlit("tool not found in registry");
    }
    if is(tool, "fs.read") {
        Ok(ToolRoute::FsRead)
    } else if is(tool, "fs.write") {
        Ok(ToolRoute::FsWrite)
    } else if is(tool, "fs.list") {
        Ok(ToolRoute::FsList)
    } else if is(tool, "fs.delete") {
        Ok(ToolRoute::FsDelete)
    } else if is(tool, "net.fetch") {
        Ok(ToolRoute::NetFetch)
    } else if is(tool, "memory.facts_get") {
        Ok(ToolRoute::FactsGet)
    } else if is(tool, "memory.facts_set") {
        Ok(ToolRoute::FactsSet)
    } else if is(tool, "memory.log_turn") {
        Ok(ToolRoute::LogTurn)
    } else if is(tool, "memory.store") {
        Ok(ToolRoute::Store)
    } else if is(tool, "memory.search") {
        Ok(ToolRoute::Search)
    } else if is(tool, "memory.consolidate") {
        Ok(ToolRoute::Consolidate)
    } else if is(tool, "memory.forget") {
        Ok(ToolRoute::Forget)
    } else if is(tool, "sys.clock") {
        Ok(ToolRoute::Clock)
    } else if is(tool, "sys.introspect") {
        Ok(ToolRoute::Introspect)
    } else {
        Err(ToolResult::failure(
            call_id,
            ascii_bytes("unknown_tool").as_slice(),
            ascii_bytes("tool not found in registry").as_slice(),
            false,
        ))
    }
}

/// The reply to a call the policy refuses.
pub open spec fn refusal_reply(c: PolicyCheck, call_id: Seq<u8>) -> ResultModel {
    match c {
        PolicyCheck::Disabled => failure_model(call_id, lit("tool_disabled"), lit("tool is disabled by policy"), false),
        PolicyCheck::NeedsApproval => failure_model(call_id, lit("approval_required"), lit("tool requires user approval"), false),
        PolicyCheck::RateLimited => failure_model(
            call_id,
            lit("rate_limited"),
            lit("tool call limit exceeded for this turn"),
            true,
        ),
        PolicyCheck::Allowed => failure_model(call_id, seq![], seq![], false),
    }
}

/// Checks a tool call against policy and, when it may run, records it
/// and routes it to its handler.
pub fn execute(call: &ToolCall, policy: &mut PolicyEngine) -> (r: Result<ToolRoute, ToolResult>)
    requires
        old(policy).wf(),
        count_of(old(policy).counts(), call.tool@) < usize::MAX,
    ensures
        final(policy).wf(),
        final(policy).policies() == old(policy).policies(),
        ({
            let c = spec_check(old(policy).policies(), old(policy).counts(), call.tool@);
            if c != PolicyCheck::Allowed {
                final(policy).counts() == old(policy).counts() && (r matches Err(t) && t@ == refusal_reply(
                    c,
                    call.call_id@,
                ))
            } else {
                &&& final(policy).counts() == old(policy).counts().insert(
                    call.tool@,
                    (count_of(old(policy).counts(), call.tool@) + 1) as usize,
                )
                &&& match r {
                    Ok(x) => route_of(call.tool@) == Some(x),
                    Err(t) => route_of(call.tool@) is None && t@ == unknown_tool_reply(call.call_id@),
                }
            }
        }),
{
    proof {
        reveal_strlit("tool_disabled");
        reveal_strlit("tool is disabled by policy");
        reveal_strlit("approval_required");
        reveal_strlit("tool requires user approval");
        reveal_strlit("rate_limited");
        reveal_strlit("tool call limit exceeded for this turn");
    }
    let id = call.call_id.as_slice();
    match policy.check(call.tool.as_slice()) {
        PolicyCheck::Allowed => {},
        PolicyCheck::Disabled => {
            return Err(ToolResult::failure(
                id,
                ascii_bytes("tool_disabled").as_slice(),
                ascii_bytes("tool is disabled by policy").as_slice(),
                false,
            ));
        },
        PolicyCheck::NeedsApproval => {
            return Err(ToolResult::failure(
                id,
                ascii_bytes("approval_required").as_slice(),
                ascii_bytes("tool requires user approval").as_slice(),
                false,
            ));
        },
        PolicyCheck::RateLimited => {
            return Err(ToolResult::failure(
                id,
                ascii_bytes("rate_limited").as_slice(),
                ascii_bytes("tool call limit exceeded for this turn").as_slice(),
                true,
            ));
        },
    }
    policy.record_call(call.tool.as_slice());
    dispatch(call.tool.as_slice(), id)
}

} // verus!
