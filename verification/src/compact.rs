//! Pre-compact archiving of the conversation history: when the history
//! passes 80% of the context budget, the oldest turns are archived verbatim
//! (never summarised) until about 60% remains, and the `key = value` lines
//! among them are offered as facts.

use vstd::prelude::*;

use crate::web::{utrim, utrim_bytes};
use crate::text::{
    ascii_bytes, dec, find_sub, find_sub_from, lemma_find_sub_from, lines, lit, push_all, push_dec, split_first_line,
    to_vec,
};

verus! {

/// The approximate token count of a text of `len` bytes: four bytes a token.
pub open spec fn estimate(len: nat) -> nat {
    ((len + 3) / 4) as nat
}

/// Estimates the tokens of a text (about four bytes each).
pub fn estimate_tokens(text: &[u8]) -> (r: usize)
    ensures
        r == estimate(text@.len()),
{
    let n = text.len();
    let q = n / 4;
    if n % 4 == 0 {
        q
    } else {
        q + 1
    }
}

/// Whether a key looks like a fact identifier: letters, digits and `_`.
pub open spec fn ident_bytes(k: Seq<u8>) -> bool {
    forall|i: int|
        0 <= i < k.len() ==> {
            let b = #[trigger] k[i];
            (48 <= b <= 57) || (65 <= b <= 90) || (97 <= b <= 122) || b == 95
        }
}

/// The fact on an archived line: `key = value` with a short identifier key.
pub open spec fn line_fact(line: Seq<u8>) -> Option<(Seq<u8>, Seq<u8>)> {
    let t = utrim(line);
    match find_sub_from(t, lit(" = "), 0) {
        Some(i) => {
            let k = utrim(t.subrange(0, i));
            let v = utrim(t.subrange(i + 3, t.len() as int));
            if k.len() > 0 && k.len() < 64 && ident_bytes(k) {
                Some((k, v))
            } else {
                None
            }
        },
        None => None,
    }
}

/// The facts on a list of lines, in order.
pub open spec fn facts_on(ls: Seq<Seq<u8>>) -> Seq<(Seq<u8>, Seq<u8>)>
    decreases ls.len(),
{
    if ls.len() == 0 {
        seq![]
    } else {
        match line_fact(ls[0]) {
            Some(f) => seq![f] + facts_on(ls.drop_first()),
            None => facts_on(ls.drop_first()),
        }
    }
}

/// The contents of a list of byte-string pairs.
pub open spec fn kv_view(v: Seq<(Vec<u8>, Vec<u8>)>) -> Seq<(Seq<u8>, Seq<u8>)> {
    v.map_values(|p: (Vec<u8>, Vec<u8>)| (p.0@, p.1@))
}

fn is_ident(k: &[u8]) -> (r: bool)
    ensures
        r == ident_bytes(k@),
{
    let mut i: usize = 0;
    while i < k.len()
        invariant
            0 <= i <= k@.len(),
            forall|j: int| 0 <= j < i ==> {
                let b = #[trigger] k@[j];
                (48 <= b <= 57) || (65 <= b <= 90) || (97 <= b <= 122) || b == 95
            },
        decreases k.len() - i,
    {
        let b = k[i];
        if !((48 <= b && b <= 57) || (65 <= b && b <= 90) || (97 <= b && b <= 122) || b == 95) {
            return false;
        }
        i = i + 1;
    }
    true
}

/// Finds the `key = value` lines of archived text that look like facts.
pub fn scan_for_facts(text: &[u8]) -> (r: Vec<(Vec<u8>, Vec<u8>)>)
    ensures
        kv_view(r@) == facts_on(lines(text@)),
{
    proof {
        reveal_strlit(" = ");
    }
    let sep = ascii_bytes(" = ");
    let mut out: Vec<(Vec<u8>, Vec<u8>)> = Vec::new();
    let mut rest = text;
    assert(kv_view(out@) + facts_on(lines(rest@)) =~= facts_on(lines(text@)));
    while rest.len() > 0
        invariant
            sep@ == lit(" = "),
            facts_on(lines(text@)) == kv_view(out@) + facts_on(lines(rest@)),
        decreases rest@.len(),
    {
        proof {
            reveal_strlit(" = ");
        }
        let (line, next) = split_first_line(rest);
        let ghost o0 = kv_view(out@);
        let ghost ls = lines(rest@);
        assert(ls[0] == line@);
        assert(ls.drop_first() =~= lines(next@));
        let t = utrim_bytes(line);
        proof {
            lemma_find_sub_from(t@, sep@, 0);
            assert(sep@.len() == 3);
        }
        let found = match find_sub(t, sep.as_slice(), 0) {
            Some(i) => {
                assert(i + 3 <= t@.len());
                let n = t.len();
                let k = utrim_bytes(vstd::slice::slice_subrange(t, 0, i));
                let v = utrim_bytes(vstd::slice::slice_subrange(t, i + 3, n));
                if k.len() > 0 && k.len() < 64 && is_ident(k) {
                    Some((to_vec(k), to_vec(v)))
                } else {
                    None
                }
            },
            None => None,
        };
        match found {
            Some(kv) => {
                let ghost kvv = (kv.0@, kv.1@);
                assert(line_fact(line@) == Some(kvv));
                out.push(kv);
                assert(kv_view(out@) =~= o0.push(kvv));
                assert(o0 + (seq![kvv] + facts_on(lines(next@))) =~= kv_view(out@) + facts_on(lines(next@)));
            },
            None => {
                assert(line_fact(line@) is None);
            },
        }
        rest = next;
    }
    assert(lines(rest@) =~= seq![]);
    assert(kv_view(out@) + seq![] =~= kv_view(out@));
    out
}

/// Which oldest turns are archived: turns are taken while fewer than
/// `need` estimated tokens have been archived (the running count
/// saturates at `usize::MAX`). The number taken and the tokens archived.
pub open spec fn archive_plan(turns: Seq<Seq<u8>>, archived: nat, need: nat) -> (nat, nat)
    decreases turns.len(),
{
    if archived < need && turns.len() > 0 {
        let a = archived + estimate(turns[0].len());
        let a2: nat = if a > usize::MAX {
            usize::MAX as nat
        } else {
            a
        };
        let (k, total) = archive_plan(turns.drop_first(), a2, need);
        (k + 1, total)
    } else {
        (0, archived)
    }
}

/// The estimated tokens of some turns.
pub open spec fn est_sum(turns: Seq<Seq<u8>>) -> nat
    decreases turns.len(),
{
    if turns.len() == 0 {
        0
    } else {
        estimate(turns[0].len()) + est_sum(turns.drop_first())
    }
}

/// A count saturating at `usize::MAX`.
pub open spec fn sat(n: nat) -> nat {
    if n > usize::MAX {
        usize::MAX as nat
    } else {
        n
    }
}

proof fn lemma_plan_sum(turns: Seq<Seq<u8>>, archived: nat, need: nat)
    requires
        archived <= usize::MAX,
    ensures
        ({
            let (k, total) = archive_plan(turns, archived, need);
            &&& k <= turns.len()
            &&& total == sat(archived + est_sum(turns.subrange(0, k as int)))
            &&& k < turns.len() ==> total >= need
        }),
    decreases turns.len(),
{
    if archived < need && turns.len() > 0 {
        let a = archived + estimate(turns[0].len());
        let a2: nat = if a > usize::MAX { usize::MAX as nat } else { a };
        let df = turns.drop_first();
        lemma_plan_sum(df, a2, need);
        let (k, total) = archive_plan(df, a2, need);
        let pre = turns.subrange(0, (k + 1) as int);
        assert(pre.drop_first() =~= df.subrange(0, k as int));
        assert(pre[0] == turns[0]);
        assert(est_sum(pre) == estimate(turns[0].len()) + est_sum(df.subrange(0, k as int)));
    } else {
        assert(turns.subrange(0, 0) =~= Seq::<Seq<u8>>::empty());
    }
}

/// A compaction keeps the newest turns in order and archives exactly the
/// ones before them: the tokens freed are their estimated total (saturating
/// at `usize::MAX`) and come off the history's total; turns stay unarchived
/// only once enough was freed, and the archive, if any, holds the archived
/// turns one per line.
pub proof fn lemma_compaction(h: HistoryModel, budget: nat)
    ensures
        ({
            let (h2, freed, archive, _) = compact_spec(h, budget);
            let k = h.turns.len() - h2.turns.len();
            &&& 0 <= k <= h.turns.len()
            &&& h.turns == h.turns.subrange(0, k) + h2.turns
            &&& freed == 0 || freed == sat(est_sum(h.turns.subrange(0, k)))
            &&& h2.total_tokens == (if h.total_tokens >= freed { h.total_tokens - freed } else { 0 })
            &&& h2.session_id == h.session_id
            &&& match archive {
                Some((_, text)) => freed > 0 && text == joined(h.turns.subrange(0, k)),
                None => freed == 0,
            }
        }),
{
    if h.total_tokens * 5 <= budget * 4 {
        assert(h.turns =~= h.turns.subrange(0, 0) + h.turns);
    } else {
        let target = budget * 3 / 5;
        let need: nat = if h.total_tokens > target { (h.total_tokens - target) as nat } else { 0 };
        lemma_plan_sum(h.turns, 0, need);
        let (k, freed) = archive_plan(h.turns, 0, need);
        assert(h.turns =~= h.turns.subrange(0, k as int) + h.turns.subrange(k as int, h.turns.len() as int));
    }
}

/// Archived turns written one per line.
pub open spec fn joined(turns: Seq<Seq<u8>>) -> Seq<u8>
    decreases turns.len(),
{
    if turns.len() == 0 {
        seq![]
    } else {
        joined(turns.drop_last()) + turns.last() + seq![10u8]
    }
}

/// The path of a session's `n`-th overflow archive.
pub open spec fn overflow_path(session_id: Seq<u8>, n: nat) -> Seq<u8> {
    lit("\\palace\\sessions\\") + session_id + lit("_overflow_") + dec(n) + lit(".txt")
}

/// Conversation history kept for pre-compact archiving.
pub struct ContextHistory {
    turns: Vec<Vec<u8>>,
    total_tokens: usize,
    overflow_count: usize,
    session_id: Vec<u8>,
}

/// Model of a history: its turns, token total, archives written and
/// session.
pub struct HistoryModel {
    pub turns: Seq<Seq<u8>>,
    pub total_tokens: nat,
    pub overflow_count: nat,
    pub session_id: Seq<u8>,
}

/// What a pre-compact pass did: the tokens freed, the archive to write
/// (path and text), and the facts found in the archived text.
pub struct CompactOutcome {
    pub freed: usize,
    pub archive: Option<(Vec<u8>, Vec<u8>)>,
    pub facts: Vec<(Vec<u8>, Vec<u8>)>,
}

/// The effect of a pre-compact pass with a budget: nothing below 80% of
/// the budget; otherwise the oldest turns are archived until the total
/// would be back to 60%. The model after, the tokens freed, the archive
/// (path and text) and its facts.
pub open spec fn compact_spec(h: HistoryModel, budget: nat) -> (
    HistoryModel,
    nat,
    Option<(Seq<u8>, Seq<u8>)>,
    Seq<(Seq<u8>, Seq<u8>)>,
) {
    if h.total_tokens * 5 <= budget * 4 {
        (h, 0, None, seq![])
    } else {
        let target = budget * 3 / 5;
        let need: nat = if h.total_tokens > target {
            (h.total_tokens - target) as nat
        } else {
            0
        };
        let (k, freed) = archive_plan(h.turns, 0, need);
        let rest = h.turns.subrange(k as int, h.turns.len() as int);
        if freed == 0 {
            (HistoryModel { turns: rest, ..h }, 0, None, seq![])
        } else {
            let text = joined(h.turns.subrange(0, k as int));
            let n = h.overflow_count + 1;
            (
                HistoryModel {
                    turns: rest,
                    total_tokens: if h.total_tokens >= freed {
                        (h.total_tokens - freed) as nat
                    } else {
                        0
                    },
                    overflow_count: n,
                    session_id: h.session_id,
                },
                freed,
                Some((overflow_path(h.session_id, n), text)),
                facts_on(lines(text)),
            )
        }
    }
}

impl View for ContextHistory {
    type V = HistoryModel;

    closed spec fn view(&self) -> HistoryModel {
        HistoryModel {
            turns: self.turns@.map_values(|t: Vec<u8>| t@),
            total_tokens: self.total_tokens as nat,
            overflow_count: self.overflow_count as nat,
            session_id: self.session_id@,
        }
    }
}

impl ContextHistory {
    pub fn new(session_id: &[u8]) -> (r: Self)
        ensures
            r@ == (HistoryModel { turns: seq![], total_tokens: 0, overflow_count: 0, session_id: session_id@ }),
    {
        let r = ContextHistory { turns: Vec::new(), total_tokens: 0, overflow_count: 0, session_id: to_vec(session_id) };
        assert(r@.turns =~= seq![]);
        r
    }

    /// Records a turn's text and approximate token count.
    pub fn record_turn(&mut self, text: &[u8], approx_tokens: usize)
        requires
            old(self)@.total_tokens + approx_tokens <= usize::MAX,
        ensures
            final(self)@ == (HistoryModel {
                turns: old(self)@.turns.push(text@),
                total_tokens: old(self)@.total_tokens + approx_tokens as nat,
                ..old(self)@
            }),
    {
        let ghost t0 = self@.turns;
        self.turns.push(to_vec(text));
        self.total_tokens = self.total_tokens + approx_tokens;
        assert(self@.turns =~= t0.push(text@));
    }

    /// The approximate tokens in the history.
    pub fn total_tokens(&self) -> (r: usize)
        ensures
            r == self@.total_tokens,
    {
        self.total_tokens
    }

    /// Archives the oldest turns when the history is over 80% of the
    /// budget (see `compact_spec`); the caller writes the archive and
    /// stores the facts.
    pub fn pre_compact(&mut self, budget: usize) -> (r: CompactOutcome)
        requires
            old(self)@.overflow_count < usize::MAX,
        ensures
            ({
                let (h, freed, archive, facts) = compact_spec(old(self)@, budget as nat);
                &&& final(self)@ == h
                &&& r.freed == freed
                &&& match r.archive {
                    Some((p, t)) => archive == Some((p@, t@)),
                    None => archive is None,
                }
                &&& kv_view(r.facts@) == facts
            }),
            old(self)@.total_tokens * 5 <= budget * 4 ==> r.freed == 0 && r.archive is None && r.facts@.len() == 0
                && final(self)@ == old(self)@,
            old(self)@.total_tokens * 5 > budget * 4 && old(self)@.turns.len() > 0 && old(self)@.turns[0].len() > 0
                ==> r.freed > 0 && r.archive is Some,
    {
        proof {
            lemma_compact_threshold(old(self)@, budget as nat);
        }
        let nothing = CompactOutcome { freed: 0, archive: None, facts: Vec::new() };
        if (self.total_tokens as u128) * 5 <= (budget as u128) * 4 {
            assert(kv_view(nothing.facts@) =~= seq![]);
            return nothing;
        }
        let target = ((budget as u128) * 3 / 5) as usize;
        let need = self.total_tokens.saturating_sub(target);
        let ghost t0 = self@.turns;
        let ghost h0 = self@;
        let nt = self.turns.len();
        assert(t0.len() == nt);
        let mut text: Vec<u8> = Vec::new();
        let mut archived: usize = 0;
        let mut k: usize = 0;
        assert(t0.subrange(0, 0) =~= seq![]);
        assert(t0.subrange(0, t0.len() as int) =~= t0);
        while archived < need && self.turns.len() > 0
            invariant
                h0 == old(self)@,
                t0 == old(self)@.turns,
                k <= t0.len(),
                self.total_tokens == old(self).total_tokens,
                self.overflow_count == old(self).overflow_count,
                self.session_id == old(self).session_id,
                self@.turns == t0.subrange(k as int, t0.len() as int),
                self.turns@.len() + k == t0.len(),
                t0.len() <= usize::MAX,
                text@ == joined(t0.subrange(0, k as int)),
                archive_plan(t0, 0, need as nat) == ({
                    let (k2, f2) = archive_plan(self@.turns, archived as nat, need as nat);
                    ((k + k2) as nat, f2)
                }),
            decreases self.turns.len(),
        {
            let ghost ts = self@.turns;
            let turn = self.turns.remove(0);
            assert(turn@ == ts[0]);
            assert(self@.turns =~= ts.drop_first());
            let est = estimate_tokens(turn.as_slice());
            let ghost j0 = text@;
            push_all(&mut text, turn.as_slice());
            text.push(10);
            proof {
                assert(t0.subrange(0, k + 1).drop_last() =~= t0.subrange(0, k as int));
                assert(t0.subrange(0, k + 1).last() == ts[0]);
                assert(text@ =~= j0 + ts[0] + seq![10u8]);
                assert(ts.drop_first() =~= t0.subrange(k + 1, t0.len() as int));
            }
            archived = archived.saturating_add(est);
            k = k + 1;
        }
        if archived == 0 {
            proof {
                assert(self@ == (HistoryModel { turns: t0.subrange(k as int, t0.len() as int), ..h0 }));
            }
            assert(kv_view(nothing.facts@) =~= seq![]);
            return nothing;
        }
        proof {
            reveal_strlit("\\palace\\sessions\\");
            reveal_strlit("_overflow_");
            reveal_strlit(".txt");
        }
        self.overflow_count = self.overflow_count + 1;
        let mut path = ascii_bytes("\\palace\\sessions\\");
        push_all(&mut path, self.session_id.as_slice());
        push_all(&mut path, ascii_bytes("_overflow_").as_slice());
        push_dec(&mut path, self.overflow_count as u64);
        push_all(&mut path, ascii_bytes(".txt").as_slice());
        let facts = scan_for_facts(text.as_slice());
        self.total_tokens = self.total_tokens.saturating_sub(archived);
        CompactOutcome { freed: archived, archive: Some((path, text)), facts }
    }
}


/// How many of the oldest turns a pre-compact pass with this budget takes.
pub open spec fn archived_turns(h: HistoryModel, budget: nat) -> nat {
    if h.total_tokens * 5 <= budget * 4 {
        0
    } else {
        let target = budget * 3 / 5;
        let need: nat = if h.total_tokens > target {
            (h.total_tokens - target) as nat
        } else {
            0
        };
        archive_plan(h.turns, 0, need).0
    }
}

proof fn lemma_archive_plan(turns: Seq<Seq<u8>>, archived: nat, need: nat)
    requires
        archived <= usize::MAX,
    ensures
        archive_plan(turns, archived, need).0 <= turns.len(),
        archived <= archive_plan(turns, archived, need).1,
        archive_plan(turns, archived, need).1 == archived && archived < usize::MAX ==> forall|i: int|
            0 <= i < archive_plan(turns, archived, need).0 ==> (#[trigger] turns[i]).len() == 0,
    decreases turns.len(),
{
    if archived < need && turns.len() > 0 {
        let a = archived + estimate(turns[0].len());
        let a2: nat = if a > usize::MAX {
            usize::MAX as nat
        } else {
            a
        };
        let t = turns.drop_first();
        lemma_archive_plan(t, a2, need);
        let (k, total) = archive_plan(t, a2, need);
        if total == archived && archived < usize::MAX {
            assert(a2 == archived);
            assert(turns[0].len() == 0);
            assert forall|i: int| 0 <= i < k + 1 implies (#[trigger] turns[i]).len() == 0 by {
                if i > 0 {
                    assert(turns[i] == t[i - 1]);
                }
            }
        }
    }
}

/// Pre-compacting never loses a word: it only drops the oldest turns;
/// when it frees tokens the archive holds exactly their text, and when it
/// frees none the turns it dropped were empty.
pub proof fn lemma_compact_keeps_every_word(h: HistoryModel, budget: nat)
    ensures
        archived_turns(h, budget) <= h.turns.len(),
        compact_spec(h, budget).0.turns == h.turns.subrange(archived_turns(h, budget) as int, h.turns.len() as int),
        compact_spec(h, budget).1 > 0 ==> compact_spec(h, budget).2 == Some(
            (
                overflow_path(h.session_id, h.overflow_count + 1),
                joined(h.turns.subrange(0, archived_turns(h, budget) as int)),
            ),
        ),
        compact_spec(h, budget).1 == 0 ==> forall|i: int|
            0 <= i < archived_turns(h, budget) ==> (#[trigger] h.turns[i]).len() == 0,
{
    lemma_archive_plan(h.turns, 0, 0);
    if h.total_tokens * 5 > budget * 4 {
        let target = budget * 3 / 5;
        let need: nat = if h.total_tokens > target {
            (h.total_tokens - target) as nat
        } else {
            0
        };
        lemma_archive_plan(h.turns, 0, need);
    } else {
        assert(h.turns.subrange(0, h.turns.len() as int) =~= h.turns);
    }
}


/// Compaction fires at 80% of the budget: at or under it nothing changes
/// and nothing is freed or archived; over it, when the oldest turn holds
/// text, some tokens are freed and an archive is made.
pub proof fn lemma_compact_threshold(h: HistoryModel, budget: nat)
    ensures
        h.total_tokens * 5 <= budget * 4 ==> compact_spec(h, budget).0 == h && compact_spec(h, budget).1 == 0
            && compact_spec(h, budget).2 is None && compact_spec(h, budget).3.len() == 0,
        h.total_tokens * 5 > budget * 4 && h.turns.len() > 0 && h.turns[0].len() > 0 ==> compact_spec(h, budget).1 > 0
            && compact_spec(h, budget).2 is Some,
{
    if h.total_tokens * 5 > budget * 4 && h.turns.len() > 0 && h.turns[0].len() > 0 {
        let target = budget * 3 / 5;
        assert(target * 5 <= budget * 3) by (nonlinear_arith)
            requires
                target == budget * 3 / 5,
                budget >= 0,
        ;
        assert(h.total_tokens > target);
        let need: nat = (h.total_tokens - target) as nat;
        assert(need > 0);
        let a = 0 + estimate(h.turns[0].len());
        assert(a > 0);
        let a2: nat = if a > usize::MAX { usize::MAX as nat } else { a };
        lemma_archive_plan(h.turns.drop_first(), a2, need);
        assert(archive_plan(h.turns, 0, need).1 >= a2);
    }
}

} // verus!
