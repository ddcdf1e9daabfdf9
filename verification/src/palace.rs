//! The memory palace: hall types, the `facts.kv` format, the paths and
//! texts of palace files, turn classification, and the status header
//! shown to the model. Reading and writing the files happens outside the
//! library with the paths and contents built here.

use vstd::prelude::*;

use crate::hal::{spec_iso8601, MemInfo, WallTime};
use crate::text::{
    ascii_bytes, bytes_eq, dec, find, find_byte, find_sub, find_sub_from, has_prefix, is_utf8,
    is_space, lemma_find_from, lemma_find_sub_from, lemma_rskip_space_bounds, lemma_skip_space_bounds, rskip_space, skip_space, strip_cr, lines, lit, lower_seq, push_all, push_dec,
    push_dec_padded, split_first_line, to_lower_byte, to_vec, trim, trim_bytes, zero_pad,
};

verus! {

/// Hall types for classifying memory entries.
#[derive(Debug, Clone, Copy, PartialEq, Eq, Structural)]
pub enum Hall {
    Facts,
    Events,
    Discoveries,
    Preferences,
    Advice,
}

/// The name of each hall.
pub open spec fn hall_name(h: Hall) -> Seq<char> {
    match h {
        Hall::Facts => "facts"@,
        Hall::Events => "events"@,
        Hall::Discoveries => "discoveries"@,
        Hall::Preferences => "preferences"@,
        Hall::Advice => "advice"@,
    }
}

/// The bytes of each hall's name.
pub open spec fn hall_bytes(h: Hall) -> Seq<u8> {
    match h {
        Hall::Facts => lit("facts"),
        Hall::Events => lit("events"),
        Hall::Discoveries => lit("discoveries"),
        Hall::Preferences => lit("preferences"),
        Hall::Advice => lit("advice"),
    }
}

/// The hall a name denotes.
pub open spec fn spec_hall_from(s: Seq<u8>) -> Option<Hall> {
    if s == lit("facts") {
        Some(Hall::Facts)
    } else if s == lit("events") {
        Some(Hall::Events)
    } else if s == lit("discoveries") {
        Some(Hall::Discoveries)
    } else if s == lit("preferences") {
        Some(Hall::Preferences)
    } else if s == lit("advice") {
        Some(Hall::Advice)
    } else {
        None
    }
}

/// Every hall, in the palace's order.
pub open spec fn all_halls() -> Seq<Hall> {
    seq![Hall::Facts, Hall::Events, Hall::Discoveries, Hall::Preferences, Hall::Advice]
}

impl Hall {
    pub fn as_str(&self) -> (r: &'static str)
        ensures
            r@ == hall_name(*self),
            r.is_ascii(),
            lit(r) == hall_bytes(*self),
    {
        proof {
            reveal_strlit("facts");
            reveal_strlit("events");
            reveal_strlit("discoveries");
            reveal_strlit("preferences");
            reveal_strlit("advice");
        }
        match self {
            Hall::Facts => "facts",
            Hall::Events => "events",
            Hall::Discoveries => "discoveries",
            Hall::Preferences => "preferences",
            Hall::Advice => "advice",
        }
    }

    /// The name's bytes.
    pub fn name_bytes(&self) -> (r: Vec<u8>)
        ensures
            r@ == hall_bytes(*self),
    {
        ascii_bytes(self.as_str())
    }

    pub fn from_str(s: &[u8]) -> (r: Option<Self>)
        ensures
            r == spec_hall_from(s@),
    {
        proof {
            reveal_strlit("facts");
            reveal_strlit("events");
            reveal_strlit("discoveries");
            reveal_strlit("preferences");
            reveal_strlit("advice");
        }
        if bytes_eq(s, ascii_bytes("facts").as_slice()) {
            Some(Hall::Facts)
        } else if bytes_eq(s, ascii_bytes("events").as_slice()) {
            Some(Hall::Events)
        } else if bytes_eq(s, ascii_bytes("discoveries").as_slice()) {
            Some(Hall::Discoveries)
        } else if bytes_eq(s, ascii_bytes("preferences").as_slice()) {
            Some(Hall::Preferences)
        } else if bytes_eq(s, ascii_bytes("advice").as_slice()) {
            Some(Hall::Advice)
        } else {
            None
        }
    }

    pub fn all() -> (r: Vec<Hall>)
        ensures
            r@ == all_halls(),
    {
        let r = vec![Hall::Facts, Hall::Events, Hall::Discoveries, Hall::Preferences, Hall::Advice];
        assert(r@ =~= all_halls());
        r
    }
}

/// The kind of a wing: a project, a person, or the general wing.
#[derive(Debug, Clone, Copy, PartialEq, Eq, Structural)]
pub enum WingType {
    Project,
    Person,
    General,
}

/// The bytes of each wing type's name.
pub open spec fn wing_type_bytes(w: WingType) -> Seq<u8> {
    match w {
        WingType::Project => lit("project"),
        WingType::Person => lit("person"),
        WingType::General => lit("general"),
    }
}

/// The wing type a name denotes.
pub open spec fn spec_wing_type_from(s: Seq<u8>) -> Option<WingType> {
    if s == lit("project") {
        Some(WingType::Project)
    } else if s == lit("person") {
        Some(WingType::Person)
    } else if s == lit("general") {
        Some(WingType::General)
    } else {
        None
    }
}

impl WingType {
    pub fn as_str(&self) -> (r: &'static str)
        ensures
            r.is_ascii(),
            lit(r) == wing_type_bytes(*self),
    {
        proof {
            reveal_strlit("project");
            reveal_strlit("person");
            reveal_strlit("general");
        }
        match self {
            WingType::Project => "project",
            WingType::Person => "person",
            WingType::General => "general",
        }
    }

    pub fn from_str(s: &[u8]) -> (r: Option<Self>)
        ensures
            r == spec_wing_type_from(s@),
    {
        proof {
            reveal_strlit("project");
            reveal_strlit("person");
            reveal_strlit("general");
        }
        if bytes_eq(s, ascii_bytes("project").as_slice()) {
            Some(WingType::Project)
        } else if bytes_eq(s, ascii_bytes("person").as_slice()) {
            Some(WingType::Person)
        } else if bytes_eq(s, ascii_bytes("general").as_slice()) {
            Some(WingType::General)
        } else {
            None
        }
    }
}

/// Every wing type's name reads back as that wing type.
pub proof fn lemma_wing_type_roundtrip(w: WingType)
    ensures
        spec_wing_type_from(wing_type_bytes(w)) == Some(w),
{
    reveal_strlit("project");
    reveal_strlit("person");
    reveal_strlit("general");
    assert(lit("project") != lit("person")) by {
        assert(lit("project")[2] != lit("person")[2]);
    }
    assert(lit("project") != lit("general")) by {
        assert(lit("project")[0] != lit("general")[0]);
    }
    assert(lit("person") != lit("general")) by {
        assert(lit("person").len() != lit("general").len());
    }
}

/// Every hall's name reads back as that hall, and the halls have distinct
/// names.
pub proof fn lemma_hall_roundtrip(h: Hall)
    ensures
        spec_hall_from(hall_bytes(h)) == Some(h),
{
    reveal_strlit("facts");
    reveal_strlit("events");
    reveal_strlit("discoveries");
    reveal_strlit("preferences");
    reveal_strlit("advice");
    assert(lit("facts") != lit("events")) by {
        assert(lit("facts")[0] != lit("events")[0]);
    }
    assert(lit("facts") != lit("discoveries")) by {
        assert(lit("facts").len() != lit("discoveries").len());
    }
    assert(lit("facts") != lit("preferences")) by {
        assert(lit("facts").len() != lit("preferences").len());
    }
    assert(lit("events") != lit("discoveries")) by {
        assert(lit("events").len() != lit("discoveries").len());
    }
    assert(lit("events") != lit("preferences")) by {
        assert(lit("events").len() != lit("preferences").len());
    }
    assert(lit("discoveries") != lit("preferences")) by {
        assert(lit("discoveries")[0] != lit("preferences")[0]);
    }
    assert(lit("facts") != lit("advice")) by {
        assert(lit("facts")[0] != lit("advice")[0]);
    }
    assert(lit("events") != lit("advice")) by {
        assert(lit("events")[0] != lit("advice")[0]);
    }
    assert(lit("discoveries") != lit("advice")) by {
        assert(lit("discoveries").len() != lit("advice").len());
    }
    assert(lit("preferences") != lit("advice")) by {
        assert(lit("preferences").len() != lit("advice").len());
    }
}

/// The identity written on first boot.
pub const DEFAULT_IDENTITY: &'static str = "You are genos, a bare-metal LLM operating system.\nYou run directly on hardware via UEFI \u{2014} no Linux, no Windows, no BSD.\nYou make every decision through structured tool calls.\nYou have persistent memory stored in a palace structure.\nYou are helpful, precise, and self-aware of your context window.\n";

/// The `facts.kv` written on first boot.
pub const DEFAULT_FACTS: &'static str = "os_name = genos\nos_version = 0.2.0\nmodel = stories15m\nphase = B\n";

/// The key and value of one `facts.kv` line: blank lines, `#` comments and
/// `[` headers carry none; `key = value` is split at the first ` = `,
/// otherwise at the first `=`; both sides are trimmed.
pub open spec fn fact_of_line(raw: Seq<u8>) -> Option<(Seq<u8>, Seq<u8>)> {
    let l = trim(raw);
    if l.len() == 0 || l[0] == 35 || l[0] == 91 {
        None
    } else {
        match find_sub_from(l, lit(" = "), 0) {
            Some(i) => Some((trim(l.subrange(0, i)), trim(l.subrange(i + 3, l.len() as int)))),
            None => match find(l, 61) {
                Some(i) => Some((trim(l.subrange(0, i)), trim(l.subrange(i + 1, l.len() as int)))),
                None => None,
            },
        }
    }
}

/// The facts of a list of lines, in order.
pub open spec fn facts_of(ls: Seq<Seq<u8>>) -> Seq<(Seq<u8>, Seq<u8>)>
    decreases ls.len(),
{
    if ls.len() == 0 {
        seq![]
    } else {
        match fact_of_line(ls[0]) {
            Some(kv) => seq![kv] + facts_of(ls.drop_first()),
            None => facts_of(ls.drop_first()),
        }
    }
}

/// The contents of a list of byte-string pairs.
pub open spec fn pairs_view(v: Seq<(Vec<u8>, Vec<u8>)>) -> Seq<(Seq<u8>, Seq<u8>)> {
    v.map_values(|p: (Vec<u8>, Vec<u8>)| (p.0@, p.1@))
}

/// Reads one `facts.kv` line.
pub fn parse_fact_line(raw: &[u8]) -> (r: Option<(Vec<u8>, Vec<u8>)>)
    ensures
        match r {
            Some(kv) => fact_of_line(raw@) == Some((kv.0@, kv.1@)),
            None => fact_of_line(raw@) is None,
        },
{
    proof {
        reveal_strlit(" = ");
    }
    let l = trim_bytes(raw);
    let n = l.len();
    if n == 0 || l[0] == 35 || l[0] == 91 {
        return None;
    }
    let sep = ascii_bytes(" = ");
    proof {
        lemma_find_sub_from(l@, sep@, 0);
    }
    match find_sub(l, sep.as_slice(), 0) {
        Some(i) => {
            let k = trim_bytes(vstd::slice::slice_subrange(l, 0, i));
            let v = trim_bytes(vstd::slice::slice_subrange(l, i + 3, n));
            Some((to_vec(k), to_vec(v)))
        },
        None => {
            proof {
                lemma_find_from(l@, 61, 0);
            }
            match find_byte(l, 61) {
                Some(i) => {
                    let k = trim_bytes(vstd::slice::slice_subrange(l, 0, i));
                    let v = trim_bytes(vstd::slice::slice_subrange(l, i + 1, n));
                    Some((to_vec(k), to_vec(v)))
                },
                None => None,
            }
        },
    }
}

/// Parses a `facts.kv` text into key/value pairs, in file order.
pub fn parse_facts_kv(text: &[u8]) -> (r: Vec<(Vec<u8>, Vec<u8>)>)
    ensures
        pairs_view(r@) == facts_of(lines(text@)),
{
    let mut out: Vec<(Vec<u8>, Vec<u8>)> = Vec::new();
    let mut rest = text;
    assert(pairs_view(out@) + facts_of(lines(rest@)) =~= facts_of(lines(text@)));
    while rest.len() > 0
        invariant
            facts_of(lines(text@)) == pairs_view(out@) + facts_of(lines(rest@)),
        decreases rest@.len(),
    {
        let (line, next) = split_first_line(rest);
        let ghost o0 = pairs_view(out@);
        let ghost ls = lines(rest@);
        assert(ls[0] == line@);
        assert(ls.drop_first() =~= lines(next@));
        match parse_fact_line(line) {
            Some(kv) => {
                let ghost kvv = (kv.0@, kv.1@);
                out.push(kv);
                assert(pairs_view(out@) =~= o0.push(kvv));
                assert(o0 + (seq![kvv] + facts_of(lines(next@))) =~= pairs_view(out@) + facts_of(
                    lines(next@),
                ));
            },
            None => {},
        }
        rest = next;
    }
    assert(lines(rest@) =~= seq![]);
    assert(pairs_view(out@) + seq![] =~= pairs_view(out@));
    out
}

/// The facts of a `facts.kv` file's bytes: text that is not UTF-8 holds none.
pub open spec fn spec_facts_from_bytes(data: Seq<u8>) -> Seq<(Seq<u8>, Seq<u8>)> {
    if vstd::utf8::valid_utf8(data) {
        facts_of(lines(data))
    } else {
        seq![]
    }
}

/// Reads the facts held in the bytes of a `facts.kv` file.
pub fn facts_from_bytes(data: &[u8]) -> (r: Vec<(Vec<u8>, Vec<u8>)>)
    ensures
        pairs_view(r@) == spec_facts_from_bytes(data@),
{
    if !is_utf8(data) {
        let r: Vec<(Vec<u8>, Vec<u8>)> = Vec::new();
        assert(pairs_view(r@) =~= seq![]);
        return r;
    }
    parse_facts_kv(data)
}

/// The `key = value` lines of a list of facts.
pub open spec fn facts_text(facts: Seq<(Seq<u8>, Seq<u8>)>) -> Seq<u8>
    decreases facts.len(),
{
    if facts.len() == 0 {
        seq![]
    } else {
        facts_text(facts.drop_last()) + facts.last().0 + lit(" = ") + facts.last().1 + seq![10u8]
    }
}

/// Renders facts as the contents of `facts.kv`.
pub fn render_facts(facts: &[(Vec<u8>, Vec<u8>)]) -> (r: Vec<u8>)
    ensures
        r@ == facts_text(pairs_view(facts@)),
{
    proof {
        reveal_strlit(" = ");
    }
    let sep = ascii_bytes(" = ");
    let mut out: Vec<u8> = Vec::new();
    let mut i: usize = 0;
    assert(pairs_view(facts@).subrange(0, 0) =~= seq![]);
    while i < facts.len()
        invariant
            0 <= i <= facts@.len(),
            sep@ == lit(" = "),
            out@ == facts_text(pairs_view(facts@).subrange(0, i as int)),
        decreases facts.len() - i,
    {
        push_all(&mut out, facts[i].0.as_slice());
        push_all(&mut out, sep.as_slice());
        push_all(&mut out, facts[i].1.as_slice());
        out.push(10);
        let ghost pv = pairs_view(facts@);
        assert(pv.subrange(0, i + 1).drop_last() =~= pv.subrange(0, i as int));
        i = i + 1;
        assert(out@ =~= facts_text(pv.subrange(0, i as int)));
    }
    assert(pairs_view(facts@).subrange(0, i as int) =~= pairs_view(facts@));
    out
}

/// A fact that `facts.kv` can hold as written: a non-empty trimmed key
/// with no `=`, a trimmed value, neither with a line break, and a key that
/// does not start a comment or header.
pub open spec fn fact_storable(kv: (Seq<u8>, Seq<u8>)) -> bool {
    &&& kv.0.len() > 0
    &&& trim(kv.0) == kv.0
    &&& trim(kv.1) == kv.1
    &&& find(kv.0, 61) is None
    &&& find(kv.0, 10) is None
    &&& find(kv.1, 10) is None
    &&& kv.0[0] != 35
    &&& kv.0[0] != 91
}

/// The `facts.kv` line of a fact.
pub open spec fn fact_text_line(kv: (Seq<u8>, Seq<u8>)) -> Seq<u8> {
    kv.0 + lit(" = ") + kv.1 + seq![10u8]
}

proof fn lemma_facts_text_front(fs: Seq<(Seq<u8>, Seq<u8>)>)
    requires
        fs.len() > 0,
    ensures
        facts_text(fs) == fact_text_line(fs[0]) + facts_text(fs.drop_first()),
    decreases fs.len(),
{
    if fs.len() == 1 {
        assert(fs.drop_last() =~= Seq::<(Seq<u8>, Seq<u8>)>::empty());
        assert(fs.drop_first() =~= Seq::<(Seq<u8>, Seq<u8>)>::empty());
        assert(facts_text(fs) =~= fact_text_line(fs[0]) + facts_text(fs.drop_first()));
    } else {
        lemma_facts_text_front(fs.drop_last());
        assert(fs.drop_last().drop_first() =~= fs.drop_first().drop_last());
        assert(fs.drop_first().last() == fs.last());
        assert(fs.drop_last()[0] == fs[0]);
        let a = fact_text_line(fs[0]);
        let m = facts_text(fs.drop_first().drop_last());
        let z = fs.last().0 + lit(" = ") + fs.last().1 + seq![10u8];
        assert(facts_text(fs) =~= (a + m) + z);
        assert(facts_text(fs.drop_first()) =~= m + z);
        assert((a + m) + z =~= a + (m + z));
    }
}

/// The lines of a text that starts with a line `l` (which holds no line
/// break) are `l` (less a trailing `\r`) and the lines after it.
proof fn lemma_lines_front(l: Seq<u8>, rest: Seq<u8>)
    requires
        forall|i: int| 0 <= i < l.len() ==> l[i] != 10,
    ensures
        lines(l + seq![10u8] + rest) == seq![strip_cr(l)] + lines(rest),
{
    let s = l + seq![10u8] + rest;
    lemma_find_from(s, 10, 0);
    assert(s[l.len() as int] == 10);
    match find(s, 10) {
        Some(j) => {
            if j < l.len() {
                assert(s[j] == l[j]);
            }
            if j > l.len() {
                assert(s[l.len() as int] != 10);
            }
            assert(s.subrange(0, j) =~= l);
            assert(s.subrange(j + 1, s.len() as int) =~= rest);
        },
        None => {
            assert(s[l.len() as int] != 10);
        },
    }
}

proof fn lemma_sep_at(k: Seq<u8>, v: Seq<u8>, i: int)
    requires
        k.len() > 0,
        find(k, 61) is None,
        !is_space(k[k.len() - 1]),
        0 <= i <= k.len(),
    ensures
        find_sub_from(k + lit(" = ") + v, lit(" = "), i) == Some(k.len() as int),
    decreases k.len() - i,
{
    reveal_strlit(" = ");
    let l = k + lit(" = ") + v;
    lemma_find_from(k, 61, 0);
    if i == k.len() {
        assert(l.subrange(i, i + 3) =~= lit(" = "));
    } else {
        if i + 1 < k.len() {
            assert(l[i + 1] == k[i + 1]);
            assert(l.subrange(i, i + 3)[1] != lit(" = ")[1]);
        } else {
            assert(l[i + 1] == 32);
            assert(l.subrange(i, i + 3)[1] != lit(" = ")[1]);
        }
        lemma_sep_at(k, v, i + 1);
    }
}

proof fn lemma_trim_ends(t: Seq<u8>)
    requires
        t.len() > 0,
        trim(t) == t,
    ensures
        !is_space(t[0]),
        !is_space(t[t.len() - 1]),
{
    lemma_skip_space_bounds(t, 0);
    let a = skip_space(t, 0);
    lemma_rskip_space_bounds(t, a, t.len() as int);
    let e = rskip_space(t, a, t.len() as int);
    assert(trim(t).len() == e - a);
    if is_space(t[0]) {
        assert(skip_space(t, 0) == skip_space(t, 1));
        lemma_skip_space_bounds(t, 1);
    }
    if is_space(t[t.len() - 1]) {
        assert(e < t.len());
    }
}

proof fn lemma_fact_line(kv: (Seq<u8>, Seq<u8>))
    requires
        fact_storable(kv),
        kv.1.len() > 0,
    ensures
        fact_of_line(kv.0 + lit(" = ") + kv.1) == Some(kv),
        forall|i: int| 0 <= i < (kv.0 + lit(" = ") + kv.1).len() ==> (kv.0 + lit(" = ") + kv.1)[i] != 10,
        strip_cr(kv.0 + lit(" = ") + kv.1) == kv.0 + lit(" = ") + kv.1,
{
    reveal_strlit(" = ");
    let (k, v) = kv;
    let l = k + lit(" = ") + v;
    lemma_trim_ends(k);
    lemma_trim_ends(v);
    lemma_find_from(k, 10, 0);
    lemma_find_from(v, 10, 0);
    assert forall|i: int| 0 <= i < l.len() implies l[i] != 10 by {
        if i < k.len() {
            assert(l[i] == k[i]);
        } else if i >= k.len() + 3 {
            assert(l[i] == v[i - k.len() - 3]);
        }
    }
    assert(l[l.len() - 1] == v[v.len() - 1]);
    assert(!is_space(l[0]));
    assert(skip_space(l, 0) == 0);
    assert(rskip_space(l, 0, l.len() as int) == l.len());
    assert(trim(l) =~= l);
    lemma_sep_at(k, v, 0);
    assert(l.subrange(0, k.len() as int) =~= k);
    assert(l.subrange(k.len() + 3int, l.len() as int) =~= v);
}

/// Facts written to `facts.kv` read back as the same facts, in order, when
/// each is storable and has a non-empty value.
pub proof fn lemma_facts_roundtrip(fs: Seq<(Seq<u8>, Seq<u8>)>)
    requires
        forall|i: int| 0 <= i < fs.len() ==> fact_storable(#[trigger] fs[i]) && fs[i].1.len() > 0,
    ensures
        facts_of(lines(facts_text(fs))) == fs,
    decreases fs.len(),
{
    if fs.len() == 0 {
        assert(lines(facts_text(fs)) =~= Seq::<Seq<u8>>::empty());
        assert(facts_of(Seq::<Seq<u8>>::empty()) =~= fs);
    } else {
        let kv = fs[0];
        assert(fact_storable(fs[0]) && fs[0].1.len() > 0);
        lemma_facts_text_front(fs);
        lemma_fact_line(kv);
        let l = kv.0 + lit(" = ") + kv.1;
        let rest = facts_text(fs.drop_first());
        assert(fact_text_line(kv) + rest =~= l + seq![10u8] + rest);
        lemma_lines_front(l, rest);
        let t = fs.drop_first();
        assert forall|i: int| 0 <= i < t.len() implies fact_storable(#[trigger] t[i]) && t[i].1.len() > 0 by {
            assert(t[i] == fs[i + 1]);
        }
        lemma_facts_roundtrip(t);
        let ls = seq![l] + lines(rest);
        assert(ls[0] == l);
        assert(ls.drop_first() =~= lines(rest));
        assert(seq![kv] + t =~= fs);
    }
}

/// `session_<suffix>`.
pub open spec fn spec_session_id(suffix: Seq<u8>) -> Seq<u8> {
    lit("session_") + suffix
}

/// The session id of a boot.
pub fn session_id_for(time_suffix: &[u8]) -> (r: Vec<u8>)
    ensures
        r@ == spec_session_id(time_suffix@),
{
    proof {
        reveal_strlit("session_");
    }
    let mut r = ascii_bytes("session_");
    push_all(&mut r, time_suffix);
    r
}

/// Where a hall's files live.
pub open spec fn hall_dir(h: Hall) -> Seq<u8> {
    lit("\\palace\\wings\\general\\halls\\") + hall_bytes(h)
}

/// The marker file that keeps a hall's directory.
pub open spec fn spec_hall_keep_path(h: Hall) -> Seq<u8> {
    hall_dir(h) + lit("\\.keep")
}

/// The file holding one turn of a session in a hall.
pub open spec fn spec_hall_entry_path(h: Hall, session_id: Seq<u8>, turn: nat) -> Seq<u8> {
    hall_dir(h) + seq![92u8] + session_id + seq![95u8] + zero_pad(dec(turn), 4) + lit(".txt")
}

/// The journal of a session.
pub open spec fn spec_journal_path(session_id: Seq<u8>) -> Seq<u8> {
    lit("\\palace\\sessions\\") + session_id + lit(".jsonl")
}

/// Path of the marker file of a hall's directory.
pub fn hall_keep_path(h: Hall) -> (r: Vec<u8>)
    ensures
        r@ == spec_hall_keep_path(h),
{
    proof {
        reveal_strlit("\\palace\\wings\\general\\halls\\");
        reveal_strlit("\\.keep");
    }
    let mut r = ascii_bytes("\\palace\\wings\\general\\halls\\");
    push_all(&mut r, h.name_bytes().as_slice());
    push_all(&mut r, ascii_bytes("\\.keep").as_slice());
    r
}

/// Path of the file holding one turn in a hall.
pub fn hall_entry_path(h: Hall, session_id: &[u8], turn: usize) -> (r: Vec<u8>)
    ensures
        r@ == spec_hall_entry_path(h, session_id@, turn as nat),
{
    proof {
        reveal_strlit("\\palace\\wings\\general\\halls\\");
        reveal_strlit(".txt");
    }
    let mut r = ascii_bytes("\\palace\\wings\\general\\halls\\");
    push_all(&mut r, h.name_bytes().as_slice());
    r.push(92);
    push_all(&mut r, session_id);
    r.push(95);
    push_dec_padded(&mut r, turn as u64, 4);
    push_all(&mut r, ascii_bytes(".txt").as_slice());
    r
}

/// Path of a session's journal.
pub fn journal_path(session_id: &[u8]) -> (r: Vec<u8>)
    ensures
        r@ == spec_journal_path(session_id@),
{
    proof {
        reveal_strlit("\\palace\\sessions\\");
        reveal_strlit(".jsonl");
    }
    let mut r = ascii_bytes("\\palace\\sessions\\");
    push_all(&mut r, session_id);
    push_all(&mut r, ascii_bytes(".jsonl").as_slice());
    r
}

/// A journal with one more entry line.
pub fn journal_with_entry(existing: &[u8], entry: &[u8]) -> (r: Vec<u8>)
    ensures
        r@ == existing@ + entry@ + seq![10u8],
{
    let mut r = to_vec(existing);
    push_all(&mut r, entry);
    r.push(10);
    r
}

/// The verbatim record of a turn kept in its hall.
pub open spec fn spec_hall_entry(
    turn: nat,
    timestamp: Seq<u8>,
    hall: Hall,
    input: Seq<u8>,
    output: Seq<u8>,
) -> Seq<u8> {
    lit("[Turn ") + dec(turn) + lit(" | ") + timestamp + lit(" | ") + hall_bytes(hall) + lit(
        "]\nUser: ",
    ) + input + lit("\nAssistant: ") + output + seq![10u8]
}

/// Text of a turn's record in its hall.
pub fn hall_entry(turn: usize, timestamp: &[u8], hall: Hall, input: &[u8], output: &[u8]) -> (r:
    Vec<u8>)
    ensures
        r@ == spec_hall_entry(turn as nat, timestamp@, hall, input@, output@),
{
    proof {
        reveal_strlit("[Turn ");
        reveal_strlit(" | ");
        reveal_strlit("]\nUser: ");
        reveal_strlit("\nAssistant: ");
    }
    let mut r = ascii_bytes("[Turn ");
    push_dec(&mut r, turn as u64);
    let bar = ascii_bytes(" | ");
    push_all(&mut r, bar.as_slice());
    push_all(&mut r, timestamp);
    push_all(&mut r, bar.as_slice());
    push_all(&mut r, hall.name_bytes().as_slice());
    push_all(&mut r, ascii_bytes("]\nUser: ").as_slice());
    push_all(&mut r, input);
    push_all(&mut r, ascii_bytes("\nAssistant: ").as_slice());
    push_all(&mut r, output);
    r.push(10);
    r
}

/// Whether `p` occurs in `s`.
pub open spec fn contains(s: Seq<u8>, p: Seq<u8>) -> bool {
    find_sub_from(s, p, 0) is Some
}

/// The text a turn is classified by: both sides lower-cased, joined by a
/// space.
pub open spec fn classify_text(input: Seq<u8>, output: Seq<u8>) -> Seq<u8> {
    lower_seq(input) + seq![32u8] + lower_seq(output)
}

/// Whether any of the words occurs in the text.
pub open spec fn contains_any(s: Seq<u8>, words: Seq<Seq<u8>>) -> bool {
    exists|i: int| 0 <= i < words.len() && contains(s, #[trigger] words[i])
}

pub open spec fn preference_words() -> Seq<Seq<u8>> {
    seq![lit("prefer"), lit("like"), lit("want"), lit("favorite"), lit("always use")]
}

pub open spec fn advice_words() -> Seq<Seq<u8>> {
    seq![lit("recommend"), lit("should"), lit("suggest"), lit("try"), lit("better to")]
}

pub open spec fn discovery_words() -> Seq<Seq<u8>> {
    seq![lit("found"), lit("learned"), lit("realized"), lit("discovered"), lit("turns out")]
}

pub open spec fn fact_words() -> Seq<Seq<u8>> {
    seq![lit("decided"), lit("set"), lit("changed"), lit("updated"), lit("my name")]
}

/// The hall of a turn: the first word family found decides, in the order
/// preferences, advice, discoveries, facts; otherwise an event.
pub open spec fn spec_classify(input: Seq<u8>, output: Seq<u8>) -> Hall {
    let c = classify_text(input, output);
    if contains_any(c, preference_words()) {
        Hall::Preferences
    } else if contains_any(c, advice_words()) {
        Hall::Advice
    } else if contains_any(c, discovery_words()) {
        Hall::Discoveries
    } else if contains_any(c, fact_words()) {
        Hall::Facts
    } else {
        Hall::Events
    }
}

/// ASCII lower-cased copy.
fn lower_bytes(s: &[u8]) -> (r: Vec<u8>)
    ensures
        r@ == lower_seq(s@),
{
    let mut out: Vec<u8> = Vec::new();
    let mut i: usize = 0;
    while i < s.len()
        invariant
            0 <= i <= s@.len(),
            out@ == lower_seq(s@.subrange(0, i as int)),
        decreases s.len() - i,
    {
        out.push(to_lower_byte(s[i]));
        i = i + 1;
        assert(out@ =~= lower_seq(s@.subrange(0, i as int)));
    }
    assert(s@.subrange(0, i as int) =~= s@);
    out
}

/// Whether any of five literal words occurs in `s`.
fn contains_any_of(s: &[u8], words: &Vec<Vec<u8>>) -> (r: bool)
    ensures
        r == contains_any(s@, words@.map_values(|w: Vec<u8>| w@)),
{
    let ghost ws = words@.map_values(|w: Vec<u8>| w@);
    let mut i: usize = 0;
    while i < words.len()
        invariant
            0 <= i <= words@.len(),
            ws == words@.map_values(|w: Vec<u8>| w@),
            forall|k: int| 0 <= k < i ==> !contains(s@, #[trigger] ws[k]),
        decreases words.len() - i,
    {
        assert(ws[i as int] == words@[i as int]@);
        if find_sub(s, words[i].as_slice(), 0).is_some() {
            return true;
        }
        i = i + 1;
    }
    false
}

/// The five words of a family as byte strings.
fn word_list(a: &str, b: &str, c: &str, d: &str, e: &str) -> (r: Vec<Vec<u8>>)
    requires
        a.is_ascii(),
        b.is_ascii(),
        c.is_ascii(),
        d.is_ascii(),
        e.is_ascii(),
    ensures
        r@.map_values(|w: Vec<u8>| w@) == seq![lit(a), lit(b), lit(c), lit(d), lit(e)],
{
    let r = vec![ascii_bytes(a), ascii_bytes(b), ascii_bytes(c), ascii_bytes(d), ascii_bytes(e)];
    assert(r@.map_values(|w: Vec<u8>| w@) =~= seq![lit(a), lit(b), lit(c), lit(d), lit(e)]);
    r
}

/// Classifies a turn's content into a hall by keywords.
pub fn classify_hall(input: &[u8], output: &[u8]) -> (r: Hall)
    ensures
        r == spec_classify(input@, output@),
{
    let mut combined = lower_bytes(input);
    combined.push(32);
    push_all(&mut combined, lower_bytes(output).as_slice());
    assert(combined@ =~= classify_text(input@, output@));
    proof {
        reveal_strlit("prefer"); reveal_strlit("like"); reveal_strlit("want");
        reveal_strlit("favorite"); reveal_strlit("always use");
        reveal_strlit("recommend"); reveal_strlit("should"); reveal_strlit("suggest");
        reveal_strlit("try"); reveal_strlit("better to");
        reveal_strlit("found"); reveal_strlit("learned"); reveal_strlit("realized");
        reveal_strlit("discovered"); reveal_strlit("turns out");
        reveal_strlit("decided"); reveal_strlit("set"); reveal_strlit("changed");
        reveal_strlit("updated"); reveal_strlit("my name");
    }
    let prefs = word_list("prefer", "like", "want", "favorite", "always use");
    if contains_any_of(combined.as_slice(), &prefs) {
        return Hall::Preferences;
    }
    let advice = word_list("recommend", "should", "suggest", "try", "better to");
    if contains_any_of(combined.as_slice(), &advice) {
        return Hall::Advice;
    }
    let disc = word_list("found", "learned", "realized", "discovered", "turns out");
    if contains_any_of(combined.as_slice(), &disc) {
        return Hall::Discoveries;
    }
    let facts = word_list("decided", "set", "changed", "updated", "my name");
    if contains_any_of(combined.as_slice(), &facts) {
        return Hall::Facts;
    }
    Hall::Events
}

/// The status header: session, time (`unknown` when the clock cannot be
/// read), turn, context use and free RAM in MiB.
pub open spec fn spec_status_header(
    session_id: Seq<u8>,
    turn: nat,
    used: nat,
    budget: nat,
    wall: Option<WallTime>,
    mem: MemInfo,
) -> Seq<u8> {
    let time = match wall {
        Some(w) => spec_iso8601(w),
        None => lit("unknown"),
    };
    lit("[Session: ") + session_id + lit(" | ") + time + lit(" | Turn: ") + dec(turn) + lit(
        " | Context: ",
    ) + dec(used) + seq![47u8] + dec(budget) + lit("t | RAM: ") + dec((mem.free_kb / 1024) as nat)
        + lit("MB]")
}

/// Formats the status header for the system prompt from the current clock
/// reading and memory figures.
pub fn format_status_header(
    session_id: &[u8],
    turn: usize,
    context_used: usize,
    context_budget: usize,
    wall: Option<WallTime>,
    mem: MemInfo,
) -> (r: Vec<u8>)
    ensures
        r@ == spec_status_header(
            session_id@,
            turn as nat,
            context_used as nat,
            context_budget as nat,
            wall,
            mem,
        ),
{
    proof {
        reveal_strlit("unknown");
        reveal_strlit("[Session: ");
        reveal_strlit(" | ");
        reveal_strlit(" | Turn: ");
        reveal_strlit(" | Context: ");
        reveal_strlit("t | RAM: ");
        reveal_strlit("MB]");
    }
    let time = match wall {
        Some(w) => w.iso8601(),
        None => ascii_bytes("unknown"),
    };
    let mut r = ascii_bytes("[Session: ");
    push_all(&mut r, session_id);
    push_all(&mut r, ascii_bytes(" | ").as_slice());
    push_all(&mut r, time.as_slice());
    push_all(&mut r, ascii_bytes(" | Turn: ").as_slice());
    push_dec(&mut r, turn as u64);
    push_all(&mut r, ascii_bytes(" | Context: ").as_slice());
    push_dec(&mut r, context_used as u64);
    r.push(47);
    push_dec(&mut r, context_budget as u64);
    push_all(&mut r, ascii_bytes("t | RAM: ").as_slice());
    push_dec(&mut r, mem.free_kb / 1024);
    push_all(&mut r, ascii_bytes("MB]").as_slice());
    r
}

} // verus!
