//! The consolidation pass: every few turns the recent journal entries are
//! read back, `key = value` lines in the model's outputs become facts,
//! and the entries are queued for re-indexing.

use vstd::prelude::*;

use crate::json::{jget, jparse, parse_checked, str_at, JModel, JsonValue, PStep};
use crate::mcp_wire::{num_ttl, number_ttl};
use crate::text::{
    ascii_bytes, find_sub, find_sub_from, is_utf8, lemma_find_sub_from, lines, lit, push_all, split_first_line,
    to_vec, trim, trim_bytes,
};
use crate::compact::kv_view;
use crate::palace::Hall;

verus! {

/// Consolidation settings.
#[derive(Debug, Clone, Copy, PartialEq, Eq, Structural)]
pub struct ConsolidationConfig {
    /// Run every `interval` turns.
    pub interval: usize,
    /// Journal entries scanned per pass.
    pub scan_window: usize,
    /// Entries older than this many turns are archived.
    pub archive_threshold: usize,
}

impl ConsolidationConfig {
    /// Every 20 turns, over the last 20 entries, archiving after 500 turns.
    pub fn default() -> (r: Self)
        ensures
            r == (ConsolidationConfig { interval: 20, scan_window: 20, archive_threshold: 500 }),
    {
        ConsolidationConfig { interval: 20, scan_window: 20, archive_threshold: 500 }
    }
}

/// The fact on an output line: `key = value`, both sides non-empty and
/// the key shorter than 64 bytes.
pub open spec fn output_fact(line: Seq<u8>) -> Option<(Seq<u8>, Seq<u8>)> {
    let t = trim(line);
    match find_sub_from(t, lit(" = "), 0) {
        Some(i) => {
            let k = trim(t.subrange(0, i));
            let v = trim(t.subrange(i + 3, t.len() as int));
            if k.len() > 0 && v.len() > 0 && k.len() < 64 {
                Some((k, v))
            } else {
                None
            }
        },
        None => None,
    }
}

/// The facts on the lines of an output, in order.
pub open spec fn output_facts(ls: Seq<Seq<u8>>) -> Seq<(Seq<u8>, Seq<u8>)>
    decreases ls.len(),
{
    if ls.len() == 0 {
        seq![]
    } else {
        match output_fact(ls[0]) {
            Some(f) => seq![f] + output_facts(ls.drop_first()),
            None => output_facts(ls.drop_first()),
        }
    }
}

/// Extracts the facts stated in a model output.
pub fn extract_facts(output: &[u8]) -> (r: Vec<(Vec<u8>, Vec<u8>)>)
    ensures
        kv_view(r@) == output_facts(lines(output@)),
{
    proof {
        reveal_strlit(" = ");
    }
    let sep = ascii_bytes(" = ");
    let mut out: Vec<(Vec<u8>, Vec<u8>)> = Vec::new();
    let mut rest = output;
    assert(kv_view(out@) + output_facts(lines(rest@)) =~= output_facts(lines(output@)));
    while rest.len() > 0
        invariant
            sep@ == lit(" = "),
            output_facts(lines(output@)) == kv_view(out@) + output_facts(lines(rest@)),
        decreases rest@.len(),
    {
        proof {
            reveal_strlit(" = ");
        }
        let (line, next) = split_first_line(rest);
        let ghost o0 = kv_view(out@);
        let ghost ls = lines(rest@);
        assert(ls[0] == line@);
        assert(ls.drop_first() =~= lines(next@));
        let t = trim_bytes(line);
        proof {
            lemma_find_sub_from(t@, sep@, 0);
            assert(sep@.len() == 3);
        }
        let found = match find_sub(t, sep.as_slice(), 0) {
            Some(i) => {
                assert(i + 3 <= t@.len());
                let n = t.len();
                let k = trim_bytes(vstd::slice::slice_subrange(t, 0, i));
                let v = trim_bytes(vstd::slice::slice_subrange(t, i + 3, n));
                if k.len() > 0 && v.len() > 0 && k.len() < 64 {
                    Some((to_vec(k), to_vec(v)))
                } else {
                    None
                }
            },
            None => None,
        };
        match found {
            Some(kv) => {
                let ghost kvv = (kv.0@, kv.1@);
                assert(output_fact(line@) == Some(kvv));
                out.push(kv);
                assert(kv_view(out@) =~= o0.push(kvv));
                assert(o0 + (seq![kvv] + output_facts(lines(next@))) =~= kv_view(out@) + output_facts(lines(next@)));
            },
            None => {
                assert(output_fact(line@) is None);
            },
        }
        rest = next;
    }
    assert(lines(rest@) =~= seq![]);
    assert(kv_view(out@) + seq![] =~= kv_view(out@));
    out
}

/// The non-blank lines of a text.
pub open spec fn non_blank(ls: Seq<Seq<u8>>) -> Seq<Seq<u8>>
    decreases ls.len(),
{
    if ls.len() == 0 {
        seq![]
    } else if trim(ls.last()).len() == 0 {
        non_blank(ls.drop_last())
    } else {
        non_blank(ls.drop_last()).push(ls.last())
    }
}

/// The last `n` of a sequence (all of it when shorter).
pub open spec fn last_n<A>(s: Seq<A>, n: nat) -> Seq<A> {
    if s.len() > n {
        s.subrange(s.len() - n, s.len() as int)
    } else {
        s
    }
}

/// The turn number of a journal entry: its `turn` number's integer part
/// (negative as 0, limited to `usize`), 0 when missing.
pub open spec fn entry_turn(v: JModel) -> nat {
    match jget(v, lit("turn")) {
        Some(JModel::Number(t)) => match num_ttl(t) {
            Some(n) => if n > usize::MAX {
                usize::MAX as nat
            } else {
                n as nat
            },
            None => 0,
        },
        _ => 0,
    }
}

/// What one journal line contributes: the facts in its output and the
/// entry to index (input and output, hall, turn) — nothing when the line
/// is not JSON or has no output.
pub open spec fn line_yield(line: Seq<u8>) -> (Seq<(Seq<u8>, Seq<u8>)>, Seq<(Seq<u8>, Seq<u8>, nat)>) {
    match jparse(line) {
        PStep::Done(v, _) => match str_at(v, lit("output")) {
            Some(out) => {
                let hall = match str_at(v, lit("hall")) {
                    Some(h) => h,
                    None => lit("events"),
                };
                let input = match str_at(v, lit("input")) {
                    Some(i) => i,
                    None => seq![],
                };
                (output_facts(lines(out)), seq![(input + seq![32u8] + out, hall, entry_turn(v))])
            },
            None => (seq![], seq![]),
        },
        _ => (seq![], seq![]),
    }
}

/// What a list of journal lines contributes, in order.
pub open spec fn lines_yield(ls: Seq<Seq<u8>>) -> (Seq<(Seq<u8>, Seq<u8>)>, Seq<(Seq<u8>, Seq<u8>, nat)>)
    decreases ls.len(),
{
    if ls.len() == 0 {
        (seq![], seq![])
    } else {
        let (f0, e0) = lines_yield(ls.drop_last());
        let (f1, e1) = line_yield(ls.last());
        (f0 + f1, e0 + e1)
    }
}

/// The journal of a session.
pub open spec fn journal_path(session_id: Seq<u8>) -> Seq<u8> {
    lit("\\palace\\sessions\\") + session_id + lit(".jsonl")
}

/// What a consolidation pass found: the journal read, the facts to set,
/// the entries to re-index (text, hall, turn), the hall entries to move
/// to the archive (session, turn, hall) and how many they are.
pub struct ConsolidationPass {
    pub journal_path: Vec<u8>,
    pub extracted: Vec<(Vec<u8>, Vec<u8>)>,
    pub entries: Vec<(Vec<u8>, Vec<u8>, usize)>,
    pub to_archive: Vec<(Vec<u8>, usize, Hall)>,
    pub archived: usize,
}

/// Model of a listing of hall entries: session, turn and hall of each.
pub open spec fn hall_entries_view(v: Seq<(Vec<u8>, usize, Hall)>) -> Seq<(Seq<u8>, nat, Hall)> {
    v.map_values(|e: (Vec<u8>, usize, Hall)| (e.0@, e.1 as nat, e.2))
}

/// The hall entries that are old at `current_turn`: none before the turn
/// reaches `threshold`, then those from turns before
/// `current_turn - threshold`, in listing order.
pub open spec fn old_entries(es: Seq<(Seq<u8>, nat, Hall)>, current_turn: nat, threshold: nat) -> Seq<(Seq<u8>, nat, Hall)>
    decreases es.len(),
{
    if es.len() == 0 || current_turn < threshold {
        seq![]
    } else if es.last().1 < current_turn - threshold {
        old_entries(es.drop_last(), current_turn, threshold).push(es.last())
    } else {
        old_entries(es.drop_last(), current_turn, threshold)
    }
}

/// The entries to index.
pub open spec fn entries_view(v: Seq<(Vec<u8>, Vec<u8>, usize)>) -> Seq<(Seq<u8>, Seq<u8>, nat)> {
    v.map_values(|e: (Vec<u8>, Vec<u8>, usize)| (e.0@, e.1@, e.2 as nat))
}

/// The facts and entries of a journal's bytes: the last `window`
/// non-blank lines of its text (none when it is not UTF-8).
pub open spec fn journal_yield(data: Seq<u8>, window: nat) -> (Seq<(Seq<u8>, Seq<u8>)>, Seq<(Seq<u8>, Seq<u8>, nat)>) {
    let text = if vstd::utf8::valid_utf8(data) {
        data
    } else {
        seq![]
    };
    lines_yield(last_n(non_blank(lines(text)), window))
}

/// The consolidation engine.
pub struct Consolidator {
    pub config: ConsolidationConfig,
    last_run_turn: usize,
}

pub(crate) fn non_blank_lines(text: &[u8]) -> (r: Vec<&[u8]>)
    ensures
        r@.map_values(|l: &[u8]| l@) == non_blank(lines(text@)),
{
    let mut out: Vec<&[u8]> = Vec::new();
    let mut rest = text;
    let ghost all = lines(text@);
    let ghost mut seen: Seq<Seq<u8>> = seq![];
    assert(all =~= seen + lines(rest@));
    assert(out@.map_values(|l: &[u8]| l@) =~= non_blank(seen));
    while rest.len() > 0
        invariant
            all == lines(text@),
            all == seen + lines(rest@),
            out@.map_values(|l: &[u8]| l@) == non_blank(seen),
        decreases rest@.len(),
    {
        let (line, next) = split_first_line(rest);
        let ghost s1 = seen.push(line@);
        assert(s1.drop_last() =~= seen);
        assert(s1.last() == line@);
        assert(all =~= s1 + lines(next@));
        let t = trim_bytes(line);
        if t.len() > 0 {
            let ghost o0 = out@;
            out.push(line);
            assert(out@.map_values(|l: &[u8]| l@) =~= o0.map_values(|l: &[u8]| l@).push(line@));
        }
        proof {
            seen = s1;
        }
        rest = next;
    }
    assert(lines(rest@) =~= seq![]);
    assert(seen + seq![] =~= seen);
    out
}

pub(crate) fn line_contribution(line: &[u8]) -> (r: (Vec<(Vec<u8>, Vec<u8>)>, Option<(Vec<u8>, Vec<u8>, usize)>))
    ensures
        ({
            let (f, e) = line_yield(line@);
            &&& kv_view(r.0@) == f
            &&& e == (match r.1 {
                Some(x) => seq![(x.0@, x.1@, x.2 as nat)],
                None => Seq::<(Seq<u8>, Seq<u8>, nat)>::empty(),
            })
        }),
{
    proof {
        reveal_strlit("output");
        reveal_strlit("hall");
        reveal_strlit("events");
        reveal_strlit("input");
        reveal_strlit("turn");
    }
    let none: Vec<(Vec<u8>, Vec<u8>)> = Vec::new();
    assert(kv_view(none@) =~= seq![]);
    let v = match parse_checked(line) {
        Some(Ok(v)) => v,
        _ => return (none, None),
    };
    let out = match v.get(ascii_bytes("output").as_slice()) {
        Some(o) => match o.as_str() {
            Some(s) => s,
            None => return (none, None),
        },
        None => return (none, None),
    };
    let hall = match v.get(ascii_bytes("hall").as_slice()) {
        Some(h) => match h.as_str() {
            Some(s) => to_vec(s),
            None => ascii_bytes("events"),
        },
        None => ascii_bytes("events"),
    };
    let turn: usize = match v.get(ascii_bytes("turn").as_slice()) {
        Some(JsonValue::Number(t)) => match number_ttl(t.as_slice()) {
            Some(n) => if n > usize::MAX as u64 {
                usize::MAX
            } else {
                n as usize
            },
            None => 0,
        },
        _ => 0,
    };
    let mut text: Vec<u8> = match v.get(ascii_bytes("input").as_slice()) {
        Some(i) => match i.as_str() {
            Some(s) => to_vec(s),
            None => Vec::new(),
        },
        None => Vec::new(),
    };
    text.push(32);
    push_all(&mut text, out);
    let facts = extract_facts(out);
    proof {
        let m = v@;
        assert(jparse(line@) matches PStep::Done(mm, _) && mm == m);
        assert(str_at(m, lit("output")) == Some(out@));
        assert(hall@ == (match str_at(m, lit("hall")) {
            Some(h) => h,
            None => lit("events"),
        }));
        assert(turn as nat == entry_turn(m));
        assert(text@ == (match str_at(m, lit("input")) {
            Some(i) => i,
            None => seq![],
        }) + seq![32u8] + out@);
    }
    (facts, Some((text, hall, turn)))
}

impl Consolidator {
    pub closed spec fn last_run(&self) -> nat {
        self.last_run_turn as nat
    }

    /// The settings in use.
    pub closed spec fn settings(&self) -> ConsolidationConfig {
        self.config
    }

    pub fn new() -> (r: Self)
        ensures
            r.settings() == (ConsolidationConfig { interval: 20, scan_window: 20, archive_threshold: 500 }),
            r.last_run() == 0,
    {
        Consolidator { config: ConsolidationConfig::default(), last_run_turn: 0 }
    }

    /// The turn of the last pass.
    pub fn last_run_turn(&self) -> (r: usize)
        ensures
            r == self.last_run(),
    {
        self.last_run_turn
    }

    /// Whether a pass is due at this turn: at least `interval` turns since
    /// the last one.
    pub fn should_run(&self, current_turn: usize) -> (r: bool)
        requires
            current_turn > 0 ==> current_turn >= self.last_run(),
        ensures
            r == (current_turn > 0 && current_turn - self.last_run() >= self.settings().interval),
    {
        current_turn > 0 && current_turn - self.last_run_turn >= self.config.interval
    }

    /// Runs a pass at this turn over the session's journal, when it could
    /// be read, and the listing of hall entries; the caller sets the facts,
    /// indexes the entries and moves the old hall entries to the archive.
    pub fn run(
        &mut self,
        session_id: &[u8],
        current_turn: usize,
        journal: Option<&[u8]>,
        hall_entries: &[(Vec<u8>, usize, Hall)],
    ) -> (r: ConsolidationPass)
        ensures
            final(self).last_run() == current_turn,
            final(self).settings() == old(self).settings(),
            r.journal_path@ == journal_path(session_id@),
            journal is Some ==> hall_entries_view(r.to_archive@) == old_entries(
                hall_entries_view(hall_entries@),
                current_turn as nat,
                old(self).settings().archive_threshold as nat,
            ),
            journal is None ==> r.to_archive@.len() == 0,
            r.archived == r.to_archive@.len(),
            match journal {
                None => r.extracted@.len() == 0 && r.entries@.len() == 0,
                Some(data) => {
                    let (f, e) = journal_yield(data@, old(self).settings().scan_window as nat);
                    kv_view(r.extracted@) == f && entries_view(r.entries@) == e
                },
            },
    {
        self.last_run_turn = current_turn;
        proof {
            reveal_strlit("\\palace\\sessions\\");
            reveal_strlit(".jsonl");
        }
        let mut path = ascii_bytes("\\palace\\sessions\\");
        push_all(&mut path, session_id);
        push_all(&mut path, ascii_bytes(".jsonl").as_slice());
        let mut extracted: Vec<(Vec<u8>, Vec<u8>)> = Vec::new();
        let mut entries: Vec<(Vec<u8>, Vec<u8>, usize)> = Vec::new();
        let data = match journal {
            Some(d) => d,
            None => return ConsolidationPass { journal_path: path, extracted, entries, to_archive: Vec::new(), archived: 0 },
        };
        let empty: &[u8] = vstd::slice::slice_subrange(data, 0, 0);
        let text: &[u8] = if is_utf8(data) {
            data
        } else {
            empty
        };
        let all = non_blank_lines(text);
        let window = self.config.scan_window;
        let start = if all.len() > window {
            all.len() - window
        } else {
            0
        };
        let ghost ls = all@.map_values(|l: &[u8]| l@);
        let ghost recent = ls.subrange(start as int, ls.len() as int);
        assert(recent =~= last_n(non_blank(lines(text@)), window as nat));
        assert(kv_view(extracted@) =~= seq![]);
        assert(entries_view(entries@) =~= seq![]);
        let mut i = start;
        while i < all.len()
            invariant
                start <= i <= all@.len(),
                ls == all@.map_values(|l: &[u8]| l@),
                recent == ls.subrange(start as int, ls.len() as int),
                lines_yield(ls.subrange(start as int, i as int)) == (kv_view(extracted@), entries_view(entries@)),
            decreases all.len() - i,
        {
            let (facts, entry) = line_contribution(all[i]);
            let ghost f0 = kv_view(extracted@);
            let ghost e0 = entries_view(entries@);
            let mut k: usize = 0;
            while k < facts.len()
                invariant
                    0 <= k <= facts@.len(),
                    kv_view(extracted@) == f0 + kv_view(facts@).subrange(0, k as int),
                decreases facts.len() - k,
            {
                let ghost x0 = extracted@;
                let (fk, fv) = (to_vec(facts[k].0.as_slice()), to_vec(facts[k].1.as_slice()));
                extracted.push((fk, fv));
                assert(kv_view(extracted@) =~= kv_view(x0).push(kv_view(facts@)[k as int]));
                assert(kv_view(facts@).subrange(0, k + 1) =~= kv_view(facts@).subrange(0, k as int).push(kv_view(facts@)[k as int]));
                k = k + 1;
            }
            assert(kv_view(facts@).subrange(0, k as int) =~= kv_view(facts@));
            match entry {
                Some(e) => {
                    let ghost ev = (e.0@, e.1@, e.2 as nat);
                    let ghost x0 = entries@;
                    entries.push(e);
                    assert(entries_view(entries@) =~= entries_view(x0).push(ev));
                    assert(e0.push(ev) =~= e0 + seq![ev]);
                },
                None => {
                    assert(e0 + Seq::<(Seq<u8>, Seq<u8>, nat)>::empty() =~= e0);
                },
            }
            proof {
                assert(ls.subrange(start as int, i + 1).drop_last() =~= ls.subrange(start as int, i as int));
                assert(ls.subrange(start as int, i + 1).last() == all@[i as int]@);
            }
            i = i + 1;
        }
        let to_archive = self.archive_old_entries(current_turn, hall_entries);
        let archived = to_archive.len();
        ConsolidationPass { journal_path: path, extracted, entries, to_archive, archived }
    }

    /// The hall entries of a listing that are old at this turn and move to
    /// `\palace\archive\`: none before the turn reaches the archive
    /// threshold, then those from turns before `current_turn - threshold`.
    pub fn archive_old_entries(&self, current_turn: usize, hall_entries: &[(Vec<u8>, usize, Hall)]) -> (r: Vec<(Vec<u8>, usize, Hall)>)
        ensures
            hall_entries_view(r@) == old_entries(
                hall_entries_view(hall_entries@),
                current_turn as nat,
                self.settings().archive_threshold as nat,
            ),
    {
        let ghost ev = hall_entries_view(hall_entries@);
        let threshold = self.config.archive_threshold;
        let mut out: Vec<(Vec<u8>, usize, Hall)> = Vec::new();
        assert(hall_entries_view(out@) =~= seq![]);
        if current_turn < threshold {
            return out;
        }
        let cut = current_turn - threshold;
        let mut i: usize = 0;
        assert(old_entries(ev.subrange(0, 0), current_turn as nat, threshold as nat) =~= seq![]);
        while i < hall_entries.len()
            invariant
                0 <= i <= hall_entries@.len(),
                ev == hall_entries_view(hall_entries@),
                threshold == self.settings().archive_threshold,
                current_turn >= threshold,
                cut == current_turn - threshold,
                hall_entries_view(out@) == old_entries(ev.subrange(0, i as int), current_turn as nat, threshold as nat),
            decreases hall_entries.len() - i,
        {
            let ghost sub = ev.subrange(0, i + 1);
            assert(sub.drop_last() =~= ev.subrange(0, i as int));
            assert(sub.last() == ev[i as int]);
            assert(ev[i as int] == (hall_entries@[i as int].0@, hall_entries@[i as int].1 as nat, hall_entries@[i as int].2));
            if hall_entries[i].1 < cut {
                let ghost o0 = hall_entries_view(out@);
                out.push((to_vec(hall_entries[i].0.as_slice()), hall_entries[i].1, hall_entries[i].2));
                assert(hall_entries_view(out@) =~= o0.push(ev[i as int]));
            }
            i = i + 1;
        }
        assert(ev.subrange(0, i as int) =~= ev);
        out
    }
}

} // verus!
