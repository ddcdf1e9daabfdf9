//! Names of the MCP JSON-RPC methods.

use vstd::prelude::*;

verus! {

pub const SERVER_DISCOVER: &'static str = "server/discover";

pub const TOOLS_LIST: &'static str = "tools/list";

pub const TOOLS_CALL: &'static str = "tools/call";

pub const RESOURCES_LIST: &'static str = "resources/list";

pub const RESOURCES_READ: &'static str = "resources/read";

pub const PROMPTS_LIST: &'static str = "prompts/list";

pub const PROMPTS_GET: &'static str = "prompts/get";

pub const COMPLETION_COMPLETE: &'static str = "completion/complete";

pub const PING: &'static str = "ping";

} // verus!
