//! Policy gating for tool calls: per-tool enabled flag, approval
//! requirement and a per-turn call budget. Unknown tools are disabled.

use vstd::prelude::*;

use crate::keymap::KeyMap;
use crate::text::{ascii_bytes, lit};

verus! {

/// Per-tool policy.
#[derive(Debug, Clone, Copy, PartialEq, Eq, Structural)]
pub struct ToolPolicy {
    pub enabled: bool,
    pub require_approval: bool,
    pub max_calls_per_turn: usize,
}

/// Allowed without approval, ten calls a turn.
pub open spec fn allowed_policy() -> ToolPolicy {
    ToolPolicy { enabled: true, require_approval: false, max_calls_per_turn: 10 }
}

/// Allowed after approval, five calls a turn.
pub open spec fn protected_policy() -> ToolPolicy {
    ToolPolicy { enabled: true, require_approval: true, max_calls_per_turn: 5 }
}

impl ToolPolicy {
    pub fn default_allowed() -> (r: Self)
        ensures
            r == allowed_policy(),
    {
        ToolPolicy { enabled: true, require_approval: false, max_calls_per_turn: 10 }
    }

    pub fn default_protected() -> (r: Self)
        ensures
            r == protected_policy(),
    {
        ToolPolicy { enabled: true, require_approval: true, max_calls_per_turn: 5 }
    }
}

/// Result of a policy check.
#[derive(Debug, Clone, Copy, PartialEq, Eq, Structural)]
pub enum PolicyCheck {
    /// Tool call is allowed to proceed.
    Allowed,
    /// Tool is disabled by policy (or unknown).
    Disabled,
    /// Tool requires user approval before execution.
    NeedsApproval,
    /// Tool has used up its calls for this turn.
    RateLimited,
}

/// The verdict for a tool given the policies and this turn's call counts.
pub open spec fn spec_check(
    policies: Map<Seq<u8>, ToolPolicy>,
    counts: Map<Seq<u8>, usize>,
    name: Seq<u8>,
) -> PolicyCheck {
    if !policies.contains_key(name) {
        PolicyCheck::Disabled
    } else {
        let p = policies[name];
        if !p.enabled {
            PolicyCheck::Disabled
        } else if p.require_approval {
            PolicyCheck::NeedsApproval
        } else if count_of(counts, name) >= p.max_calls_per_turn {
            PolicyCheck::RateLimited
        } else {
            PolicyCheck::Allowed
        }
    }
}

/// Calls recorded for a tool this turn.
pub open spec fn count_of(counts: Map<Seq<u8>, usize>, name: Seq<u8>) -> nat {
    if counts.contains_key(name) {
        counts[name] as nat
    } else {
        0
    }
}

/// The built-in policies: read, write, network and MCP tools allowed;
/// `fs.delete` needs approval.
pub open spec fn default_policies() -> Map<Seq<u8>, ToolPolicy> {
    map![
        lit("fs.read") => allowed_policy(),
        lit("fs.list") => allowed_policy(),
        lit("memory.facts_get") => allowed_policy(),
        lit("memory.log_turn") => allowed_policy(),
        lit("sys.clock") => allowed_policy(),
        lit("sys.introspect") => allowed_policy(),
        lit("fs.write") => allowed_policy(),
        lit("memory.facts_set") => allowed_policy(),
        lit("net.fetch") => allowed_policy(),
        lit("mcp.servers") => allowed_policy(),
        lit("mcp.connect") => allowed_policy(),
        lit("mcp.tools") => allowed_policy(),
        lit("mcp.call") => allowed_policy(),
        lit("mcp.resource") => allowed_policy(),
        lit("mcp.prompt") => allowed_policy(),
        lit("fs.delete") => protected_policy()
    ]
}

/// Checks tool calls against policy before execution.
pub struct PolicyEngine {
    policies: KeyMap<ToolPolicy>,
    call_counts: KeyMap<usize>,
}

impl PolicyEngine {
    /// The policy of each tool.
    pub closed spec fn policies(&self) -> Map<Seq<u8>, ToolPolicy> {
        self.policies@
    }

    /// Calls made this turn, per tool.
    pub closed spec fn counts(&self) -> Map<Seq<u8>, usize> {
        self.call_counts@
    }

    pub closed spec fn wf(&self) -> bool {
        self.policies.wf() && self.call_counts.wf()
    }

    /// An engine with the built-in policies and no calls recorded.
    pub fn new() -> (r: Self)
        ensures
            r.wf(),
            r.policies() == default_policies(),
            r.counts() == Map::<Seq<u8>, usize>::empty(),
    {
        let mut policies: KeyMap<ToolPolicy> = KeyMap::new();
        proof { reveal_strlit("fs.read"); }
        policies.insert(ascii_bytes("fs.read").as_slice(), ToolPolicy::default_allowed());
        proof { reveal_strlit("fs.list"); }
        policies.insert(ascii_bytes("fs.list").as_slice(), ToolPolicy::default_allowed());
        proof { reveal_strlit("memory.facts_get"); }
        policies.insert(ascii_bytes("memory.facts_get").as_slice(), ToolPolicy::default_allowed());
        proof { reveal_strlit("memory.log_turn"); }
        policies.insert(ascii_bytes("memory.log_turn").as_slice(), ToolPolicy::default_allowed());
        proof { reveal_strlit("sys.clock"); }
        policies.insert(ascii_bytes("sys.clock").as_slice(), ToolPolicy::default_allowed());
        proof { reveal_strlit("sys.introspect"); }
        policies.insert(ascii_bytes("sys.introspect").as_slice(), ToolPolicy::default_allowed());
        proof { reveal_strlit("fs.write"); }
        policies.insert(ascii_bytes("fs.write").as_slice(), ToolPolicy::default_allowed());
        proof { reveal_strlit("memory.facts_set"); }
        policies.insert(ascii_bytes("memory.facts_set").as_slice(), ToolPolicy::default_allowed());
        proof { reveal_strlit("net.fetch"); }
        policies.insert(ascii_bytes("net.fetch").as_slice(), ToolPolicy::default_allowed());
        proof { reveal_strlit("mcp.servers"); }
        policies.insert(ascii_bytes("mcp.servers").as_slice(), ToolPolicy::default_allowed());
        proof { reveal_strlit("mcp.connect"); }
        policies.insert(ascii_bytes("mcp.connect").as_slice(), ToolPolicy::default_allowed());
        proof { reveal_strlit("mcp.tools"); }
        policies.insert(ascii_bytes("mcp.tools").as_slice(), ToolPolicy::default_allowed());
        proof { reveal_strlit("mcp.call"); }
        policies.insert(ascii_bytes("mcp.call").as_slice(), ToolPolicy::default_allowed());
        proof { reveal_strlit("mcp.resource"); }
        policies.insert(ascii_bytes("mcp.resource").as_slice(), ToolPolicy::default_allowed());
        proof { reveal_strlit("mcp.prompt"); }
        policies.insert(ascii_bytes("mcp.prompt").as_slice(), ToolPolicy::default_allowed());
        proof { reveal_strlit("fs.delete"); }
        policies.insert(ascii_bytes("fs.delete").as_slice(), ToolPolicy::default_protected());
        assert(policies@ =~= default_policies());
        PolicyEngine { policies, call_counts: KeyMap::new() }
    }

    /// Checks whether a tool call is allowed by policy.
    pub fn check(&self, tool_name: &[u8]) -> (r: PolicyCheck)
        requires
            self.wf(),
        ensures
            r == spec_check(self.policies(), self.counts(), tool_name@),
    {
        let policy = match self.policies.get(tool_name) {
            Some(p) => *p,
            None => return PolicyCheck::Disabled,
        };
        if !policy.enabled {
            return PolicyCheck::Disabled;
        }
        if policy.require_approval {
            return PolicyCheck::NeedsApproval;
        }
        let count: usize = match self.call_counts.get(tool_name) {
            Some(c) => *c,
            None => 0,
        };
        if count >= policy.max_calls_per_turn {
            return PolicyCheck::RateLimited;
        }
        PolicyCheck::Allowed
    }

    /// Records that a tool was called.
    pub fn record_call(&mut self, tool_name: &[u8])
        requires
            old(self).wf(),
            count_of(old(self).counts(), tool_name@) < usize::MAX,
        ensures
            final(self).wf(),
            final(self).policies() == old(self).policies(),
            final(self).counts() == old(self).counts().insert(
                tool_name@,
                (count_of(old(self).counts(), tool_name@) + 1) as usize,
            ),
    {
        let count: usize = match self.call_counts.get(tool_name) {
            Some(c) => *c,
            None => 0,
        };
        self.call_counts.insert(tool_name, count + 1);
    }

    /// Forgets this turn's calls.
    pub fn reset_turn(&mut self)
        requires
            old(self).wf(),
        ensures
            final(self).wf(),
            final(self).policies() == old(self).policies(),
            final(self).counts() == Map::<Seq<u8>, usize>::empty(),
    {
        self.call_counts.clear();
    }

    /// Sets the policy of a tool.
    pub fn set_policy(&mut self, tool_name: &[u8], policy: ToolPolicy)
        requires
            old(self).wf(),
        ensures
            final(self).wf(),
            final(self).policies() == old(self).policies().insert(tool_name@, policy),
            final(self).counts() == old(self).counts(),
    {
        self.policies.insert(tool_name, policy);
    }

    /// Disables a known tool; afterwards every check of it says `Disabled`.
    pub fn disable_tool(&mut self, tool_name: &[u8])
        requires
            old(self).wf(),
        ensures
            final(self).wf(),
            final(self).counts() == old(self).counts(),
            final(self).policies() == (if old(self).policies().contains_key(tool_name@) {
                old(self).policies().insert(
                    tool_name@,
                    ToolPolicy { enabled: false, ..old(self).policies()[tool_name@] },
                )
            } else {
                old(self).policies()
            }),
            spec_check(final(self).policies(), final(self).counts(), tool_name@)
                == PolicyCheck::Disabled,
    {
        match self.policies.get(tool_name) {
            Some(p) => {
                let mut q = *p;
                q.enabled = false;
                self.policies.insert(tool_name, q);
            },
            None => {},
        }
    }

    /// Enables a known tool.
    pub fn enable_tool(&mut self, tool_name: &[u8])
        requires
            old(self).wf(),
        ensures
            final(self).wf(),
            final(self).counts() == old(self).counts(),
            final(self).policies() == (if old(self).policies().contains_key(tool_name@) {
                old(self).policies().insert(
                    tool_name@,
                    ToolPolicy { enabled: true, ..old(self).policies()[tool_name@] },
                )
            } else {
                old(self).policies()
            }),
    {
        match self.policies.get(tool_name) {
            Some(p) => {
                let mut q = *p;
                q.enabled = true;
                self.policies.insert(tool_name, q);
            },
            None => {},
        }
    }
}

/// A tool with an open budget is allowed until it has been called
/// `max_calls_per_turn` times in the turn, and rate limited from then on.
pub proof fn lemma_budget_exhaustion(
    policies: Map<Seq<u8>, ToolPolicy>,
    counts: Map<Seq<u8>, usize>,
    name: Seq<u8>,
)
    requires
        policies.contains_key(name),
        policies[name].enabled,
        !policies[name].require_approval,
    ensures
        spec_check(policies, counts, name) == (if count_of(counts, name)
            >= policies[name].max_calls_per_turn {
            PolicyCheck::RateLimited
        } else {
            PolicyCheck::Allowed
        }),
{
}

/// After a turn is reset, the verdict depends on the policies alone: no
/// tool is rate limited unless its budget is zero.
pub proof fn lemma_reset_restores_budget(policies: Map<Seq<u8>, ToolPolicy>, name: Seq<u8>)
    ensures
        spec_check(policies, Map::empty(), name) == PolicyCheck::RateLimited ==> policies[name].max_calls_per_turn
            == 0,
{
}

} // verus!
