//! The wake-up protocol: the system prompt assembled at every boot from
//! the identity, the known facts and the tool manifest, and the per-turn
//! status that goes with it.

use vstd::prelude::*;

use crate::hal::{MemInfo, WallTime};
use crate::palace::{facts_text, format_status_header, pairs_view, render_facts, spec_status_header};
use crate::registry::{default_tools, spec_manifest, ToolRegistry};
use crate::text::{ascii_bytes, lit, push_all, to_vec};

verus! {

/// The known-facts block: one `key = value` line each, or a note that
/// there are none.
pub open spec fn facts_block(facts: Seq<(Seq<u8>, Seq<u8>)>) -> Seq<u8> {
    if facts.len() == 0 {
        lit("No facts loaded yet.")
    } else {
        facts_text(facts)
    }
}

/// The closing instructions of the system prompt.
pub open spec fn closing() -> Seq<u8> {
    lit("\nWhen you want to use a tool, emit the JSON on its own line.\nAfter receiving the result, continue your response.\nAlways respond helpfully and concisely.")
}

/// The system prompt: identity, known facts, tool manifest, then how to
/// call tools.
pub open spec fn wake_prompt(identity: Seq<u8>, facts: Seq<(Seq<u8>, Seq<u8>)>, manifest: Seq<u8>) -> Seq<u8> {
    identity + lit("\n\nKnown facts:\n") + facts_block(facts) + lit("\n\n") + manifest + closing()
}

/// The state of a session as the prompt sees it.
pub struct WakeUpState {
    /// The full system prompt (identity + facts + tool manifest).
    pub system_prompt: Vec<u8>,
    pub session_id: Vec<u8>,
    /// Turns completed so far.
    pub turn: usize,
    /// Context budget in tokens.
    pub context_budget: usize,
    /// Approximate tokens used so far.
    pub context_used: usize,
}

impl WakeUpState {
    /// The status header of the current turn.
    pub fn status_header(&self, wall: Option<WallTime>, mem: MemInfo) -> (r: Vec<u8>)
        ensures
            r@ == spec_status_header(
                self.session_id@,
                self.turn as nat,
                self.context_used as nat,
                self.context_budget as nat,
                wall,
                mem,
            ),
    {
        format_status_header(self.session_id.as_slice(), self.turn, self.context_used, self.context_budget, wall, mem)
    }

    /// The prompt prefix: the system prompt, then the status header.
    pub fn prompt_prefix(&self, wall: Option<WallTime>, mem: MemInfo) -> (r: Vec<u8>)
        ensures
            r@ == self.system_prompt@ + seq![10u8] + spec_status_header(
                self.session_id@,
                self.turn as nat,
                self.context_used as nat,
                self.context_budget as nat,
                wall,
                mem,
            ) + seq![10u8],
    {
        let header = self.status_header(wall, mem);
        let mut r = to_vec(self.system_prompt.as_slice());
        r.push(10);
        push_all(&mut r, header.as_slice());
        r.push(10);
        r
    }

    /// Moves to the next turn, adding its tokens to the context used.
    pub fn advance_turn(&mut self, tokens_this_turn: usize)
        requires
            old(self).turn < usize::MAX,
            old(self).context_used + tokens_this_turn <= usize::MAX,
        ensures
            final(self).turn == old(self).turn + 1,
            final(self).context_used == old(self).context_used + tokens_this_turn,
            final(self).context_budget == old(self).context_budget,
            final(self).system_prompt@ == old(self).system_prompt@,
            final(self).session_id@ == old(self).session_id@,
    {
        self.turn = self.turn + 1;
        self.context_used = self.context_used + tokens_this_turn;
    }

    /// Whether the context is past 80% of the budget.
    pub fn needs_pre_compact(&self) -> (r: bool)
        ensures
            r == (self.context_used * 5 > self.context_budget * 4),
    {
        (self.context_used as u128) * 5 > (self.context_budget as u128) * 4
    }
}

/// Builds the session's state from the identity text and the known facts
/// read from the palace; the budget starts at 256 tokens.
pub fn load(session_id: &[u8], identity: &[u8], facts: &[(Vec<u8>, Vec<u8>)]) -> (r: WakeUpState)
    ensures
        r.system_prompt@ == wake_prompt(identity@, pairs_view(facts@), spec_manifest(default_tools())),
        r.session_id@ == session_id@,
        r.turn == 0,
        r.context_budget == 256,
        r.context_used == 0,
{
    proof {
        reveal_strlit("No facts loaded yet.");
        reveal_strlit("\n\nKnown facts:\n");
        reveal_strlit("\n\n");
        reveal_strlit(
            "\nWhen you want to use a tool, emit the JSON on its own line.\nAfter receiving the result, continue your response.\nAlways respond helpfully and concisely.",
        );
    }
    let block = if facts.len() == 0 {
        ascii_bytes("No facts loaded yet.")
    } else {
        render_facts(facts)
    };
    let registry = ToolRegistry::default_registry();
    let manifest = registry.manifest();
    let mut prompt = to_vec(identity);
    push_all(&mut prompt, ascii_bytes("\n\nKnown facts:\n").as_slice());
    push_all(&mut prompt, block.as_slice());
    push_all(&mut prompt, ascii_bytes("\n\n").as_slice());
    push_all(&mut prompt, manifest.as_slice());
    push_all(
        &mut prompt,
        ascii_bytes(
            "\nWhen you want to use a tool, emit the JSON on its own line.\nAfter receiving the result, continue your response.\nAlways respond helpfully and concisely.",
        ).as_slice(),
    );
    assert(prompt@ == wake_prompt(identity@, pairs_view(facts@), spec_manifest(registry@)));
    WakeUpState { system_prompt: prompt, session_id: to_vec(session_id), turn: 0, context_budget: 256, context_used: 0 }
}

/// Like `load`, with the context budget from the configuration.
pub fn load_with_budget(session_id: &[u8], context_budget: usize, identity: &[u8], facts: &[(Vec<u8>, Vec<u8>)]) -> (r: WakeUpState)
    ensures
        r.system_prompt@ == wake_prompt(identity@, pairs_view(facts@), spec_manifest(default_tools())),
        r.session_id@ == session_id@,
        r.turn == 0,
        r.context_budget == context_budget,
        r.context_used == 0,
{
    let mut state = load(session_id, identity, facts);
    state.context_budget = context_budget;
    state
}

} // verus!
