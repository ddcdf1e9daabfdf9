//! System configuration: a minimal TOML-like `key = value` format with
//! `[section]` headers (stored as a `section.` key prefix) and `#`
//! comments. Values are kept as text in key order.

use vstd::prelude::*;

use crate::text::{
    all_digits, ascii_bytes, bytes_eq, digits_value, find, find_byte, find_from, is_digit, is_space,
    is_utf8, lemma_digits_monotone, lemma_find_from, lemma_rskip_space_bounds, lemma_skip_space_bounds,
    lines, lit, parse_digits, push_all, rskip_space, skip_space, split_first_line, strip_cr, to_vec,
    trim, trim_bytes,
};

verus! {

/// Byte-wise lexicographic order.
pub open spec fn bytes_lt(a: Seq<u8>, b: Seq<u8>) -> bool
    decreases a.len(),
{
    if a.len() == 0 {
        b.len() > 0
    } else if b.len() == 0 {
        false
    } else if a[0] != b[0] {
        a[0] < b[0]
    } else {
        bytes_lt(a.drop_first(), b.drop_first())
    }
}

/// No byte string is before itself.
pub proof fn lemma_bytes_lt_irreflexive(s: Seq<u8>)
    ensures
        !bytes_lt(s, s),
    decreases s.len(),
{
    if s.len() > 0 {
        lemma_bytes_lt_irreflexive(s.drop_first());
    }
}

/// The order is transitive.
pub proof fn lemma_bytes_lt_trans(a: Seq<u8>, b: Seq<u8>, c: Seq<u8>)
    requires
        bytes_lt(a, b),
        bytes_lt(b, c),
    ensures
        bytes_lt(a, c),
    decreases a.len(),
{
    if a.len() > 0 && b.len() > 0 && c.len() > 0 && a[0] == b[0] && b[0] == c[0] {
        lemma_bytes_lt_trans(a.drop_first(), b.drop_first(), c.drop_first());
    }
}

/// Of two different byte strings one is before the other.
pub proof fn lemma_bytes_lt_total(a: Seq<u8>, b: Seq<u8>)
    ensures
        bytes_lt(a, b) || bytes_lt(b, a) || a == b,
    decreases a.len(),
{
    if a.len() > 0 && b.len() > 0 && a[0] == b[0] {
        lemma_bytes_lt_total(a.drop_first(), b.drop_first());
        if a.drop_first() == b.drop_first() {
            assert(a =~= seq![a[0]] + a.drop_first());
            assert(b =~= seq![b[0]] + b.drop_first());
        }
    } else if a.len() == 0 && b.len() == 0 {
        assert(a =~= b);
    }
}

/// Compares two byte strings lexicographically.
pub fn bytes_less(a: &[u8], b: &[u8]) -> (r: bool)
    ensures
        r == bytes_lt(a@, b@),
{
    let mut i: usize = 0;
    assert(a@.subrange(0, a@.len() as int) =~= a@);
    assert(b@.subrange(0, b@.len() as int) =~= b@);
    while i < a.len() && i < b.len()
        invariant
            0 <= i <= a@.len(),
            i <= b@.len(),
            bytes_lt(a@, b@) == bytes_lt(a@.subrange(i as int, a@.len() as int), b@.subrange(
                i as int,
                b@.len() as int,
            )),
        decreases a.len() - i,
    {
        let ghost sa = a@.subrange(i as int, a@.len() as int);
        let ghost sb = b@.subrange(i as int, b@.len() as int);
        assert(sa[0] == a@[i as int] && sb[0] == b@[i as int]);
        if a[i] != b[i] {
            return a[i] < b[i];
        }
        assert(sa.drop_first() =~= a@.subrange(i + 1, a@.len() as int));
        assert(sb.drop_first() =~= b@.subrange(i + 1, b@.len() as int));
        i = i + 1;
    }
    i == a.len() && i < b.len()
}

/// Pairs in key order after setting `k` to `v`.
pub open spec fn sorted_insert(s: Seq<(Seq<u8>, Seq<u8>)>, k: Seq<u8>, v: Seq<u8>) -> Seq<
    (Seq<u8>, Seq<u8>),
>
    decreases s.len(),
{
    if s.len() == 0 {
        seq![(k, v)]
    } else if s[0].0 == k {
        seq![(k, v)] + s.drop_first()
    } else if bytes_lt(k, s[0].0) {
        seq![(k, v)] + s
    } else {
        seq![s[0]] + sorted_insert(s.drop_first(), k, v)
    }
}

/// The value of the first pair with this key.
pub open spec fn lookup_pairs(s: Seq<(Seq<u8>, Seq<u8>)>, k: Seq<u8>) -> Option<Seq<u8>>
    decreases s.len(),
{
    if s.len() == 0 {
        None
    } else if s[0].0 == k {
        Some(s[0].1)
    } else {
        lookup_pairs(s.drop_first(), k)
    }
}

/// The contents of a list of byte-string pairs.
pub open spec fn pairs_of(v: Seq<(Vec<u8>, Vec<u8>)>) -> Seq<(Seq<u8>, Seq<u8>)> {
    v.map_values(|p: (Vec<u8>, Vec<u8>)| (p.0@, p.1@))
}

/// Sets a key in a key-ordered list of pairs.
fn insert_sorted(values: &mut Vec<(Vec<u8>, Vec<u8>)>, key: Vec<u8>, val: Vec<u8>)
    ensures
        pairs_of(final(values)@) == sorted_insert(pairs_of(old(values)@), key@, val@),
{
    let ghost all = pairs_of(values@);
    let mut i: usize = 0;
    assert(all.subrange(0, all.len() as int) =~= all);
    assert(all.subrange(0, 0) + sorted_insert(all, key@, val@) =~= sorted_insert(all, key@, val@));
    while i < values.len()
        invariant
            0 <= i <= values@.len(),
            values@ == old(values)@,
            all == pairs_of(values@),
            sorted_insert(all, key@, val@) == all.subrange(0, i as int) + sorted_insert(
                all.subrange(i as int, all.len() as int),
                key@,
                val@,
            ),
        decreases values.len() - i,
    {
        let ghost rest = all.subrange(i as int, all.len() as int);
        assert(rest[0] == (values@[i as int].0@, values@[i as int].1@));
        if bytes_eq(values[i].0.as_slice(), key.as_slice()) {
            let ghost kk = key@;
            let ghost vv = val@;
            values.set(i, (key, val));
            assert(pairs_of(values@) =~= all.subrange(0, i as int) + (seq![(kk, vv)]
                + rest.drop_first()));
            return;
        }
        if bytes_less(key.as_slice(), values[i].0.as_slice()) {
            let ghost kk = key@;
            let ghost vv = val@;
            values.insert(i, (key, val));
            assert(pairs_of(values@) =~= all.subrange(0, i as int) + (seq![(kk, vv)] + rest));
            return;
        }
        assert(all.subrange(0, i as int) + (seq![rest[0]] + sorted_insert(
            rest.drop_first(),
            key@,
            val@,
        )) =~= all.subrange(0, i + 1) + sorted_insert(
            all.subrange(i + 1, all.len() as int),
            key@,
            val@,
        )) by {
            assert(rest.drop_first() =~= all.subrange(i + 1, all.len() as int));
        }
        i = i + 1;
    }
    let ghost kk = key@;
    let ghost vv = val@;
    values.push((key, val));
    assert(all.subrange(i as int, all.len() as int) =~= seq![]);
    assert(pairs_of(values@) =~= all.subrange(0, i as int) + seq![(kk, vv)]);
}

/// System configuration: text values by full key, in key order.
pub struct SystemConfig {
    pub values: Vec<(Vec<u8>, Vec<u8>)>,
}

/// Parser state: the current section and the values so far.
pub open spec fn step_line(st: (Seq<u8>, Seq<(Seq<u8>, Seq<u8>)>), raw: Seq<u8>) -> (
    Seq<u8>,
    Seq<(Seq<u8>, Seq<u8>)>,
) {
    let l = trim(raw);
    if l.len() == 0 || l[0] == 35 {
        st
    } else if l[0] == 91 && l[l.len() - 1] == 93 && l.len() >= 2 {
        (l.subrange(1, l.len() - 1), st.1)
    } else {
        match find(l, 61) {
            None => st,
            Some(i) => {
                let key = trim(l.subrange(0, i));
                let val = unquote(trim(l.subrange(i + 1, l.len() as int)));
                let full = if st.0.len() == 0 {
                    key
                } else {
                    st.0 + seq![46u8] + key
                };
                (st.0, sorted_insert(st.1, full, val))
            },
        }
    }
}

/// A value without its surrounding double quotes, if it has them.
pub open spec fn unquote(v: Seq<u8>) -> Seq<u8> {
    if v.len() >= 2 && v[0] == 34 && v[v.len() - 1] == 34 {
        v.subrange(1, v.len() - 1)
    } else {
        v
    }
}

/// The parser state after a list of lines.
pub open spec fn fold_lines(st: (Seq<u8>, Seq<(Seq<u8>, Seq<u8>)>), ls: Seq<Seq<u8>>) -> (
    Seq<u8>,
    Seq<(Seq<u8>, Seq<u8>)>,
)
    decreases ls.len(),
{
    if ls.len() == 0 {
        st
    } else {
        fold_lines(step_line(st, ls[0]), ls.drop_first())
    }
}

/// The values a configuration text defines (none unless it is UTF-8).
pub open spec fn spec_sysconfig(data: Seq<u8>) -> Seq<(Seq<u8>, Seq<u8>)> {
    if vstd::utf8::valid_utf8(data) {
        fold_lines((seq![], seq![]), lines(data)).1
    } else {
        seq![]
    }
}

/// The defaults used when no configuration file exists.
pub open spec fn default_values() -> Seq<(Seq<u8>, Seq<u8>)> {
    sorted_insert(
        sorted_insert(
            sorted_insert(
                sorted_insert(
                    sorted_insert(
                        sorted_insert(seq![], lit("sampling.temperature"), lit("1.0")),
                        lit("sampling.top_p"),
                        lit("0.9"),
                    ),
                    lit("sampling.top_k"),
                    lit("40"),
                ),
                lit("context.budget"),
                lit("256"),
            ),
            lit("context.pre_compact_threshold"),
            lit("0.8"),
        ),
        lit("memory.consolidation_interval"),
        lit("20"),
    )
}

/// `-`? digits (`.` digits)?, with at least one digit: the texts written
/// back without quotes.
pub open spec fn is_numeric(s: Seq<u8>) -> bool {
    let a = if s.len() > 0 && s[0] == 45 {
        1int
    } else {
        0int
    };
    let t = s.subrange(a, s.len() as int);
    s.len() > 0 && match find(t, 46) {
        None => t.len() > 0 && all_digits(t),
        Some(i) => all_digits(t.subrange(0, i)) && all_digits(t.subrange(i + 1, t.len() as int))
            && t.len() > 1,
    }
}

/// A value as written back: booleans and numbers bare, the rest quoted.
pub open spec fn render_value(v: Seq<u8>) -> Seq<u8> {
    if v == lit("true") || v == lit("false") || is_numeric(v) {
        v
    } else {
        seq![34u8] + v + seq![34u8]
    }
}

/// The text written for the pairs from `last` on (the previous section).
pub open spec fn toml_body(s: Seq<(Seq<u8>, Seq<u8>)>, last: Seq<u8>) -> Seq<u8>
    decreases s.len(),
{
    if s.len() == 0 {
        seq![]
    } else {
        let (key, val) = s[0];
        let (head, name, next) = match find(key, 46) {
            Some(d) => {
                let section = key.subrange(0, d);
                let sub = key.subrange(d + 1, key.len() as int);
                if section != last {
                    (
                        (if last.len() > 0 {
                            seq![10u8]
                        } else {
                            seq![]
                        }) + seq![91u8] + section + lit("]\n"),
                        sub,
                        section,
                    )
                } else {
                    (seq![], sub, last)
                }
            },
            None => (seq![], key, last),
        };
        head + name + lit(" = ") + render_value(val) + seq![10u8] + toml_body(s.drop_first(), next)
    }
}

/// The TOML text of a configuration.
pub open spec fn spec_to_toml(s: Seq<(Seq<u8>, Seq<u8>)>) -> Seq<u8> {
    lit("# genos system configuration\n\n") + toml_body(s, seq![])
}

/// A decimal `usize`: digits only, at least one, and in range.
pub open spec fn spec_parse_usize(s: Seq<u8>) -> Option<usize> {
    if s.len() > 0 && all_digits(s) && digits_value(s) <= usize::MAX {
        Some(digits_value(s) as usize)
    } else {
        None
    }
}

/// Reads a decimal `usize`.
pub fn parse_usize(s: &[u8]) -> (r: Option<usize>)
    ensures
        r == spec_parse_usize(s@),
{
    match parse_digits(s, usize::MAX as u64) {
        Some(v) => Some(v as usize),
        None => None,
    }
}

/// Whether a value would be written back without quotes as a number.
pub fn looks_numeric(s: &[u8]) -> (r: bool)
    ensures
        r == is_numeric(s@),
{
    if s.len() == 0 {
        return false;
    }
    let a: usize = if s[0] == 45 {
        1
    } else {
        0
    };
    let t = vstd::slice::slice_subrange(s, a, s.len());
    proof {
        lemma_find_from(t@, 46, 0);
    }
    match find_byte(t, 46) {
        None => t.len() > 0 && digits_only(t),
        Some(i) => {
            let tl = t.len();
            digits_only(vstd::slice::slice_subrange(t, 0, i)) && digits_only(
                vstd::slice::slice_subrange(t, i + 1, tl),
            ) && tl > 1
        },
    }
}

/// Whether every byte is a decimal digit.
fn digits_only(s: &[u8]) -> (r: bool)
    ensures
        r == all_digits(s@),
{
    let mut i: usize = 0;
    while i < s.len()
        invariant
            0 <= i <= s@.len(),
            forall|k: int| 0 <= k < i ==> is_digit(#[trigger] s@[k]),
        decreases s.len() - i,
    {
        if s[i] < 48 || s[i] > 57 {
            assert(!is_digit(s@[i as int]));
            return false;
        }
        i = i + 1;
    }
    true
}

impl SystemConfig {
    /// The pairs held, in key order.
    pub open spec fn pairs(&self) -> Seq<(Seq<u8>, Seq<u8>)> {
        pairs_of(self.values@)
    }

    /// Each key once, in increasing order, with UTF-8 keys and values: so
    /// `parse` and `default_config` leave the values.
    pub open spec fn wf(&self) -> bool {
        keys_sorted(self.pairs()) && pairs_utf8(self.pairs())
    }

    /// Parses configuration text.
    pub fn parse(data: &[u8]) -> (r: Self)
        ensures
            r.pairs() == spec_sysconfig(data@),
            r.wf(),
    {
        proof {
            lemma_parsed_well_formed(data@);
        }
        let mut values: Vec<(Vec<u8>, Vec<u8>)> = Vec::new();
        if !is_utf8(data) {
            assert(pairs_of(values@) =~= seq![]);
            return SystemConfig { values };
        }
        let mut section: Vec<u8> = Vec::new();
        let mut rest = data;
        assert(pairs_of(values@) =~= seq![]);
        while rest.len() > 0
            invariant
                vstd::utf8::valid_utf8(data@),
                fold_lines((seq![], seq![]), lines(data@)) == fold_lines(
                    (section@, pairs_of(values@)),
                    lines(rest@),
                ),
            decreases rest@.len(),
        {
            let (raw, next) = split_first_line(rest);
            let ghost st = (section@, pairs_of(values@));
            assert(lines(rest@)[0] == raw@);
            assert(lines(rest@).drop_first() =~= lines(next@));
            let l = trim_bytes(raw);
            let n = l.len();
            if n == 0 || l[0] == 35 {
            } else if l[0] == 91 && l[n - 1] == 93 && n >= 2 {
                section = to_vec(vstd::slice::slice_subrange(l, 1, n - 1));
            } else {
                proof {
                    lemma_find_from(l@, 61, 0);
                }
                match find_byte(l, 61) {
                    None => {},
                    Some(i) => {
                        let key = trim_bytes(vstd::slice::slice_subrange(l, 0, i));
                        let v = trim_bytes(vstd::slice::slice_subrange(l, i + 1, n));
                        let vl = v.len();
                        let val: &[u8] = if vl >= 2 && v[0] == 34 && v[vl - 1] == 34 {
                            vstd::slice::slice_subrange(v, 1, vl - 1)
                        } else {
                            v
                        };
                        let full: Vec<u8> = if section.len() == 0 {
                            to_vec(key)
                        } else {
                            let mut f = to_vec(section.as_slice());
                            f.push(46);
                            push_all(&mut f, key);
                            f
                        };
                        assert(val@ =~= unquote(v@));
                        assert(full@ =~= (if section@.len() == 0 {
                            key@
                        } else {
                            section@ + seq![46u8] + key@
                        }));
                        assert(find(l@, 61) == Some(i as int));
                        insert_sorted(&mut values, full, to_vec(val));
                    },
                }
            }
            assert(step_line(st, raw@).0 == section@);
            assert(step_line(st, raw@).1 == pairs_of(values@));
            rest = next;
        }
        SystemConfig { values }
    }

    /// The configuration used when no file exists.
    pub fn default_config() -> (r: Self)
        ensures
            r.pairs() == default_values(),
            r.wf(),
    {
        proof {
            lemma_defaults_well_formed();
        }
        let mut values: Vec<(Vec<u8>, Vec<u8>)> = Vec::new();
        assert(pairs_of(values@) =~= seq![]);
        proof {
            reveal_strlit("sampling.temperature"); reveal_strlit("1.0");
            reveal_strlit("sampling.top_p"); reveal_strlit("0.9");
            reveal_strlit("sampling.top_k"); reveal_strlit("40");
            reveal_strlit("context.budget"); reveal_strlit("256");
            reveal_strlit("context.pre_compact_threshold"); reveal_strlit("0.8");
            reveal_strlit("memory.consolidation_interval"); reveal_strlit("20");
        }
        insert_sorted(&mut values, ascii_bytes("sampling.temperature"), ascii_bytes("1.0"));
        insert_sorted(&mut values, ascii_bytes("sampling.top_p"), ascii_bytes("0.9"));
        insert_sorted(&mut values, ascii_bytes("sampling.top_k"), ascii_bytes("40"));
        insert_sorted(&mut values, ascii_bytes("context.budget"), ascii_bytes("256"));
        insert_sorted(
            &mut values,
            ascii_bytes("context.pre_compact_threshold"),
            ascii_bytes("0.8"),
        );
        insert_sorted(&mut values, ascii_bytes("memory.consolidation_interval"), ascii_bytes("20"));
        SystemConfig { values }
    }

    /// The text value of a key.
    pub fn get_str(&self, key: &[u8]) -> (r: Option<&[u8]>)
        ensures
            match r {
                Some(v) => lookup_pairs(self.pairs(), key@) == Some(v@),
                None => lookup_pairs(self.pairs(), key@) is None,
            },
    {
        let ghost all = self.pairs();
        let mut i: usize = 0;
        assert(all.subrange(0, all.len() as int) =~= all);
        while i < self.values.len()
            invariant
                0 <= i <= self.values@.len(),
                all == self.pairs(),
                lookup_pairs(all, key@) == lookup_pairs(all.subrange(i as int, all.len() as int), key@),
            decreases self.values.len() - i,
        {
            let ghost rest = all.subrange(i as int, all.len() as int);
            assert(rest[0] == (self.values@[i as int].0@, self.values@[i as int].1@));
            assert(rest.drop_first() =~= all.subrange(i + 1, all.len() as int));
            if bytes_eq(self.values[i].0.as_slice(), key) {
                return Some(self.values[i].1.as_slice());
            }
            i = i + 1;
        }
        None
    }

    /// A key's value read as a `usize`.
    pub fn get_usize(&self, key: &[u8]) -> (r: Option<usize>)
        ensures
            r == (match lookup_pairs(self.pairs(), key@) {
                Some(v) => spec_parse_usize(v),
                None => None,
            }),
    {
        match self.get_str(key) {
            Some(s) => parse_usize(s),
            None => None,
        }
    }

    /// Serialises back to TOML: a comment line, then the keys in order,
    /// each section opened once with a `[section]` header.
    #[verifier::rlimit(40)]
    pub fn to_toml(&self) -> (r: Vec<u8>)
        ensures
            r@ == spec_to_toml(self.pairs()),
    {
        proof {
            reveal_strlit("# genos system configuration\n\n");
            reveal_strlit("]\n");
            reveal_strlit(" = ");
            reveal_strlit("true");
            reveal_strlit("false");
        }
        let mut out = ascii_bytes("# genos system configuration\n\n");
        let header_end = ascii_bytes("]\n");
        let eq = ascii_bytes(" = ");
        let t = ascii_bytes("true");
        let f = ascii_bytes("false");
        let mut last: Vec<u8> = Vec::new();
        let ghost all = self.pairs();
        let mut i: usize = 0;
        assert(all.subrange(0, all.len() as int) =~= all);
        while i < self.values.len()
            invariant
                0 <= i <= self.values@.len(),
                all == self.pairs(),
                header_end@ == lit("]\n"),
                eq@ == lit(" = "),
                t@ == lit("true"),
                f@ == lit("false"),
                spec_to_toml(all) == out@ + toml_body(
                    all.subrange(i as int, all.len() as int),
                    last@,
                ),
            decreases self.values.len() - i,
        {
            let ghost rest = all.subrange(i as int, all.len() as int);
            let ghost out0 = out@;
            let ghost last0 = last@;
            assert(rest[0] == (self.values@[i as int].0@, self.values@[i as int].1@));
            assert(rest.drop_first() =~= all.subrange(i + 1, all.len() as int));
            let key = self.values[i].0.as_slice();
            let val = self.values[i].1.as_slice();
            proof {
                lemma_find_from(key@, 46, 0);
            }
            match find_byte(key, 46) {
                Some(d) => {
                    let kl = key.len();
                    let section = vstd::slice::slice_subrange(key, 0, d);
                    let sub = vstd::slice::slice_subrange(key, d + 1, kl);
                    if !bytes_eq(section, last.as_slice()) {
                        if last.len() > 0 {
                            out.push(10);
                        }
                        out.push(91);
                        push_all(&mut out, section);
                        push_all(&mut out, header_end.as_slice());
                        last = to_vec(section);
                    }
                    push_all(&mut out, sub);
                },
                None => {
                    push_all(&mut out, key);
                },
            }
            push_all(&mut out, eq.as_slice());
            if bytes_eq(val, t.as_slice()) || bytes_eq(val, f.as_slice()) || looks_numeric(val) {
                push_all(&mut out, val);
            } else {
                out.push(34);
                push_all(&mut out, val);
                out.push(34);
            }
            out.push(10);
            assert(out0 + toml_body(rest, last0) =~= out@ + toml_body(rest.drop_first(), last@));
            i = i + 1;
        }
        assert(all.subrange(i as int, all.len() as int) =~= seq![]);
        assert(out@ + seq![] =~= out@);
        out
    }
}


proof fn lemma_skip_to(s: Seq<u8>, i: int, a: int)
    requires
        0 <= i <= a <= s.len(),
        forall|k: int| i <= k < a ==> is_space(#[trigger] s[k]),
    ensures
        skip_space(s, i) == skip_space(s, a),
    decreases a - i,
{
    if i < a {
        lemma_skip_to(s, i + 1, a);
    }
}

proof fn lemma_rskip_to(s: Seq<u8>, lo: int, j: int, b: int)
    requires
        lo <= b <= j <= s.len(),
        forall|k: int| b <= k < j ==> is_space(#[trigger] s[k]),
    ensures
        rskip_space(s, lo, j) == rskip_space(s, lo, b),
    decreases j - b,
{
    if b < j {
        lemma_rskip_to(s, lo, j - 1, b);
    }
}

/// Trimming keeps exactly the part between leading and trailing spaces.
proof fn lemma_trim_exact(s: Seq<u8>, a: int, b: int)
    requires
        0 <= a <= b <= s.len(),
        forall|k: int| 0 <= k < a ==> is_space(#[trigger] s[k]),
        forall|k: int| b <= k < s.len() ==> is_space(#[trigger] s[k]),
        a < b ==> !is_space(s[a]) && !is_space(s[b - 1]),
    ensures
        trim(s) == s.subrange(a, b),
{
    if a < b {
        lemma_skip_to(s, 0, a);
        assert(skip_space(s, a) == a);
        lemma_rskip_to(s, a, s.len() as int, b);
        assert(rskip_space(s, a, b) == b);
    } else {
        assert forall|k: int| 0 <= k < s.len() implies is_space(#[trigger] s[k]) by {
            if k >= b {
            } else {
            }
        }
        lemma_skip_to(s, 0, s.len() as int);
        assert(skip_space(s, s.len() as int) == s.len());
        assert(trim(s) =~= s.subrange(a, b));
    }
}

/// A trimmed text that is not empty starts and ends with a non-space.
proof fn lemma_trimmed_ends(s: Seq<u8>)
    requires
        trim(s) == s,
        s.len() > 0,
    ensures
        !is_space(s[0]),
        !is_space(s[s.len() - 1]),
{
    lemma_skip_space_bounds(s, 0);
    let a = skip_space(s, 0);
    lemma_rskip_space_bounds(s, a, s.len() as int);
    let r = rskip_space(s, a, s.len() as int);
    assert(trim(s).len() == r - a);
}

/// The first `b` in `s` is at `j` when it occurs there and nowhere before.
proof fn lemma_find_at(s: Seq<u8>, b: u8, j: int)
    requires
        0 <= j < s.len(),
        s[j] == b,
        forall|k: int| 0 <= k < j ==> #[trigger] s[k] != b,
    ensures
        find(s, b) == Some(j),
{
    lemma_find_from(s, b, 0);
}

/// No line feed occurs in `s`.
pub open spec fn no_newline(s: Seq<u8>) -> bool {
    forall|k: int| 0 <= k < s.len() ==> #[trigger] s[k] != 10
}

/// A value as written back starts and ends with a printable byte that
/// closes no section header, holds no line feed when the value holds
/// none, and reads back as the value.
proof fn lemma_render(v: Seq<u8>)
    requires
        no_newline(v),
    ensures
        ({
            let rv = render_value(v);
            &&& rv.len() > 0
            &&& !is_space(rv[0])
            &&& !is_space(rv[rv.len() - 1])
            &&& rv[rv.len() - 1] != 93
            &&& no_newline(rv)
            &&& unquote(rv) == v
        }),
{
    reveal_strlit("true");
    reveal_strlit("false");
    let rv = render_value(v);
    if v == lit("true") || v == lit("false") {
        assert(rv == v);
    } else if is_numeric(v) {
        let a = if v.len() > 0 && v[0] == 45 { 1int } else { 0int };
        let t = v.subrange(a, v.len() as int);
        lemma_find_from(t, 46, 0);
        match find(t, 46) {
            None => {
                assert(is_digit(t[t.len() - 1]));
                assert(v[v.len() - 1] == t[t.len() - 1]);
                if a == 0 {
                    assert(is_digit(t[0]));
                }
            },
            Some(i) => {
                if i + 1 < t.len() {
                    assert(t.subrange(i + 1, t.len() as int)[t.len() - i - 2] == t[t.len() - 1]);
                    assert(is_digit(t[t.len() - 1]));
                } else {
                    assert(t[t.len() - 1] == 46);
                }
                assert(v[v.len() - 1] == t[t.len() - 1]);
                if a == 0 {
                    if i > 0 {
                        assert(t.subrange(0, i)[0] == t[0]);
                        assert(is_digit(t[0]));
                    } else {
                        assert(t[0] == 46);
                    }
                }
            },
        }
        assert(rv == v);
    } else {
        assert(rv == seq![34u8] + v + seq![34u8]);
        assert(rv.subrange(1, rv.len() - 1) =~= v);
    }
}


/// Whether a key can be written under a section header and read back: a
/// non-empty section before its first `.`, then a name with no `=`, no
/// space at either end, not starting a comment, and no line feed.
pub open spec fn writable_key(key: Seq<u8>) -> bool {
    match find(key, 46) {
        Some(d) => {
            let sub = key.subrange(d + 1, key.len() as int);
            &&& d > 0
            &&& no_newline(key)
            &&& trim(sub) == sub
            &&& (forall|k: int| 0 <= k < sub.len() ==> #[trigger] sub[k] != 61)
            &&& (sub.len() > 0 ==> sub[0] != 35)
        },
        None => false,
    }
}

/// The line written for a key under its section.
pub open spec fn key_line(sub: Seq<u8>, v: Seq<u8>) -> Seq<u8> {
    sub + lit(" = ") + render_value(v)
}

/// Reading a key's line in a section stores the value under the full key.
#[verifier::spinoff_prover]
#[verifier::rlimit(40)]
proof fn lemma_step_key_line(st: (Seq<u8>, Seq<(Seq<u8>, Seq<u8>)>), sub: Seq<u8>, v: Seq<u8>)
    requires
        st.0.len() > 0,
        no_newline(v),
        trim(sub) == sub,
        forall|k: int| 0 <= k < sub.len() ==> #[trigger] sub[k] != 61,
        sub.len() > 0 ==> sub[0] != 35,
    ensures
        step_line(st, key_line(sub, v)) == (st.0, sorted_insert(st.1, st.0 + seq![46u8] + sub, v)),
        strip_cr(key_line(sub, v)) == key_line(sub, v),
{
    reveal_strlit(" = ");
    lemma_render(v);
    let rv = render_value(v);
    let raw = key_line(sub, v);
    let n: int = sub.len() as int;
    assert(raw[n] == 32 && raw[n + 1] == 61 && raw[n + 2] == 32);
    assert(raw[raw.len() - 1] == rv[rv.len() - 1]);
    assert(raw.subrange(n + 2, raw.len() as int) =~= seq![32u8] + rv);
    lemma_trim_exact(seq![32u8] + rv, 1, rv.len() + 1int);
    assert((seq![32u8] + rv).subrange(1, rv.len() + 1int) =~= rv);
    if n > 0 {
        lemma_trimmed_ends(sub);
        assert(raw[0] == sub[0]);
        lemma_trim_exact(raw, 0, raw.len() as int);
        assert(raw.subrange(0, raw.len() as int) =~= raw);
        let l = trim(raw);
        assert(l == raw);
        lemma_find_at(l, 61, n + 1);
        assert(l.subrange(0, n + 1) =~= sub + seq![32u8]);
        lemma_trim_exact(sub + seq![32u8], 0, n);
        assert((sub + seq![32u8]).subrange(0, n) =~= sub);
        assert(l.subrange(n + 2, l.len() as int) =~= seq![32u8] + rv);
    } else {
        assert(raw =~= seq![32u8, 61u8, 32u8] + rv);
        lemma_trim_exact(raw, 1, raw.len() as int);
        let l = trim(raw);
        assert(l =~= seq![61u8, 32u8] + rv);
        lemma_find_at(l, 61, 0);
        assert(l.subrange(0, 0) =~= seq![]);
        lemma_trim_exact(l.subrange(0, 0), 0, 0);
        assert(l.subrange(0, 0).subrange(0, 0) =~= sub);
        assert(l.subrange(1, l.len() as int) =~= seq![32u8] + rv);
    }
}

/// The header line of a section.
pub open spec fn header_line(section: Seq<u8>) -> Seq<u8> {
    seq![91u8] + section + seq![93u8]
}

/// Reading a section's header line makes it the current section.
proof fn lemma_step_header(st: (Seq<u8>, Seq<(Seq<u8>, Seq<u8>)>), section: Seq<u8>)
    ensures
        step_line(st, header_line(section)) == (section, st.1),
        strip_cr(header_line(section)) == header_line(section),
{
    let h = header_line(section);
    lemma_trim_exact(h, 0, h.len() as int);
    assert(h.subrange(0, h.len() as int) =~= h);
    assert(h.subrange(1, h.len() - 1) =~= section);
}

/// Reading an empty line changes nothing.
proof fn lemma_step_empty(st: (Seq<u8>, Seq<(Seq<u8>, Seq<u8>)>))
    ensures
        step_line(st, Seq::<u8>::empty()) == st,
        strip_cr(Seq::<u8>::empty()) == Seq::<u8>::empty(),
{
    lemma_trim_exact(Seq::<u8>::empty(), 0, 0);
}

/// The lines of a line followed by more text.
proof fn lemma_lines_cons(x: Seq<u8>, rest: Seq<u8>)
    requires
        no_newline(x),
    ensures
        lines(x + seq![10u8] + rest) == seq![strip_cr(x)] + lines(rest),
{
    let s = x + seq![10u8] + rest;
    lemma_find_at(s, 10, x.len() as int);
    assert(s.subrange(0, x.len() as int) =~= x);
    assert(s.subrange(x.len() + 1int, s.len() as int) =~= rest);
}

/// Folding a line, then the rest.
proof fn lemma_fold_cons(st: (Seq<u8>, Seq<(Seq<u8>, Seq<u8>)>), l: Seq<u8>, ls: Seq<Seq<u8>>)
    ensures
        fold_lines(st, seq![l] + ls) == fold_lines(step_line(st, l), ls),
{
    assert((seq![l] + ls)[0] == l);
    assert((seq![l] + ls).drop_first() =~= ls);
}


/// Setting a key after every key held appends it.
proof fn lemma_sorted_insert_append(acc: Seq<(Seq<u8>, Seq<u8>)>, k: Seq<u8>, v: Seq<u8>)
    requires
        forall|i: int| 0 <= i < acc.len() ==> bytes_lt(#[trigger] acc[i].0, k),
    ensures
        sorted_insert(acc, k, v) == acc.push((k, v)),
    decreases acc.len(),
{
    if acc.len() > 0 {
        let a = acc[0].0;
        assert(bytes_lt(a, k));
        if a == k {
            lemma_bytes_lt_irreflexive(k);
        }
        if bytes_lt(k, a) {
            lemma_bytes_lt_trans(a, k, a);
            lemma_bytes_lt_irreflexive(a);
        }
        let rest = acc.drop_first();
        assert forall|i: int| 0 <= i < rest.len() implies bytes_lt(#[trigger] rest[i].0, k) by {
            assert(rest[i] == acc[i + 1]);
        }
        lemma_sorted_insert_append(rest, k, v);
        assert(seq![acc[0]] + rest.push((k, v)) =~= acc.push((k, v)));
    } else {
        assert(seq![(k, v)] =~= acc.push((k, v)));
    }
}

/// Pairs that the writer puts out and the parser reads back as they are:
/// every key writable and its value free of line feeds, both UTF-8, and
/// the keys in strictly increasing order.
pub open spec fn writable_pairs(ps: Seq<(Seq<u8>, Seq<u8>)>) -> bool {
    &&& forall|i: int| 0 <= i < ps.len() ==> {
        &&& writable_key(#[trigger] ps[i].0)
        &&& no_newline(ps[i].1)
        &&& vstd::utf8::valid_utf8(ps[i].0)
        &&& vstd::utf8::valid_utf8(ps[i].1)
    }
    &&& forall|i: int, j: int| 0 <= i < j < ps.len() ==> bytes_lt(#[trigger] ps[i].0, #[trigger] ps[j].0)
}

/// Reading the text written for `s`, from the section `last` on and with
/// `acc` read before (every key of it before those of `s`), appends `s`.
#[verifier::rlimit(60)]
proof fn lemma_body(s: Seq<(Seq<u8>, Seq<u8>)>, last: Seq<u8>, acc: Seq<(Seq<u8>, Seq<u8>)>)
    requires
        writable_pairs(s),
        forall|i: int, j: int| 0 <= i < acc.len() && 0 <= j < s.len() ==> bytes_lt(#[trigger] acc[i].0, #[trigger] s[j].0),
    ensures
        fold_lines((last, acc), lines(toml_body(s, last))).1 == acc + s,
    decreases s.len(),
{
    reveal_strlit(" = ");
    reveal_strlit("]\n");
    if s.len() == 0 {
        assert(lines(seq![]) == Seq::<Seq<u8>>::empty());
        assert(acc + s =~= acc);
    } else {
        let key = s[0].0;
        let val = s[0].1;
        assert(writable_key(key) && no_newline(val));
        lemma_find_from(key, 46, 0);
        let d = find(key, 46)->Some_0;
        let section = key.subrange(0, d);
        let sub = key.subrange(d + 1, key.len() as int);
        assert(key =~= section + seq![46u8] + sub);
        let rest = s.drop_first();
        let rest_text = toml_body(rest, section);
        lemma_render(val);
        let kl = key_line(sub, val);
        assert(no_newline(sub)) by {
            assert forall|k: int| 0 <= k < sub.len() implies #[trigger] sub[k] != 10 by {
                assert(sub[k] == key[d + 1 + k]);
            }
        }
        assert(no_newline(section)) by {
            assert forall|k: int| 0 <= k < section.len() implies #[trigger] section[k] != 10 by {
                assert(section[k] == key[k]);
            }
        }
        assert(no_newline(kl)) by {
            assert forall|k: int| 0 <= k < kl.len() implies #[trigger] kl[k] != 10 by {
                if k < sub.len() {
                    assert(kl[k] == sub[k]);
                } else if k >= sub.len() + 3 {
                    assert(kl[k] == render_value(val)[k - sub.len() - 3]);
                }
            }
        }
        assert(no_newline(header_line(section))) by {
            assert forall|k: int| 0 <= k < header_line(section).len() implies #[trigger] header_line(section)[k] != 10 by {
                if 0 < k < header_line(section).len() - 1 {
                    assert(header_line(section)[k] == section[k - 1]);
                }
            }
        }
        assert forall|i: int| 0 <= i < acc.len() implies bytes_lt(#[trigger] acc[i].0, key) by {
            assert(bytes_lt(acc[i].0, s[0].0));
        }
        lemma_sorted_insert_append(acc, key, val);
        let acc2 = acc.push((key, val));
        assert(writable_pairs(rest)) by {
            assert forall|i: int| 0 <= i < rest.len() implies {
                &&& writable_key(#[trigger] rest[i].0)
                &&& no_newline(rest[i].1)
                &&& vstd::utf8::valid_utf8(rest[i].0)
                &&& vstd::utf8::valid_utf8(rest[i].1)
            } by {
                assert(rest[i] == s[i + 1]);
            }
            assert forall|i: int, j: int| 0 <= i < j < rest.len() implies bytes_lt(#[trigger] rest[i].0, #[trigger] rest[j].0) by {
                assert(rest[i] == s[i + 1] && rest[j] == s[j + 1]);
            }
        }
        assert forall|i: int, j: int| 0 <= i < acc2.len() && 0 <= j < rest.len() implies bytes_lt(#[trigger] acc2[i].0, #[trigger] rest[j].0) by {
            assert(rest[j] == s[j + 1]);
            if i < acc.len() {
                assert(acc2[i] == acc[i]);
            } else {
                assert(acc2[i].0 == s[0].0);
            }
        }
        lemma_body(rest, section, acc2);
        let tail = kl + seq![10u8] + rest_text;
        lemma_lines_cons(kl, rest_text);
        lemma_step_key_line((section, acc), sub, val);
        lemma_fold_cons((section, acc), kl, lines(rest_text));
        assert(fold_lines((section, acc), lines(tail)).1 == acc2 + rest);
        assert(acc2 + rest =~= acc + s);
        if section != last {
            let t2 = header_line(section) + seq![10u8] + tail;
            lemma_lines_cons(header_line(section), tail);
            lemma_step_header((last, acc), section);
            lemma_fold_cons((last, acc), header_line(section), lines(tail));
            if last.len() > 0 {
                assert(toml_body(s, last) =~= Seq::<u8>::empty() + seq![10u8] + t2);
                lemma_lines_cons(Seq::<u8>::empty(), t2);
                lemma_step_empty((last, acc));
                lemma_fold_cons((last, acc), Seq::<u8>::empty(), lines(t2));
            } else {
                assert(toml_body(s, last) =~= t2);
            }
        } else {
            assert(toml_body(s, last) =~= tail);
        }
    }
}


/// ASCII text is UTF-8.
pub proof fn lemma_ascii_utf8(s: Seq<u8>)
    requires
        forall|k: int| 0 <= k < s.len() ==> #[trigger] s[k] < 128,
    ensures
        vstd::utf8::valid_utf8(s),
    decreases s.len(),
{
    if s.len() > 0 {
        let b: u8 = s[0];
        assert((b & 0x7f) <= 0x7f) by (bit_vector);
        assert(vstd::utf8::valid_first_scalar(s));
        let rest = s.subrange(1, s.len() as int);
        assert(vstd::utf8::pop_first_scalar(s) =~= rest);
        lemma_ascii_utf8(rest);
    }
}

/// The two sides of an ASCII byte in UTF-8 text are UTF-8.
proof fn lemma_split_utf8(key: Seq<u8>, d: int)
    requires
        vstd::utf8::valid_utf8(key),
        0 <= d < key.len(),
        key[d] < 128,
    ensures
        vstd::utf8::valid_utf8(key.subrange(0, d)),
        vstd::utf8::valid_utf8(key.subrange(d + 1, key.len() as int)),
{
    vstd::utf8::is_char_boundary_iff_not_is_continuation_byte(key, d);
    vstd::utf8::valid_utf8_split(key, d);
    let t = key.subrange(d, key.len() as int);
    assert(t[0] == key[d]);
    assert(vstd::utf8::pop_first_scalar(t) =~= key.subrange(d + 1, key.len() as int));
}

/// The text written for writable pairs is UTF-8.
#[verifier::rlimit(40)]
proof fn lemma_body_utf8(s: Seq<(Seq<u8>, Seq<u8>)>, last: Seq<u8>)
    requires
        writable_pairs(s),
    ensures
        vstd::utf8::valid_utf8(toml_body(s, last)),
    decreases s.len(),
{
    reveal_strlit(" = ");
    reveal_strlit("]\n");
    if s.len() > 0 {
        let key = s[0].0;
        let val = s[0].1;
        assert(writable_key(key) && vstd::utf8::valid_utf8(key) && vstd::utf8::valid_utf8(val));
        lemma_find_from(key, 46, 0);
        let d = find(key, 46)->Some_0;
        let section = key.subrange(0, d);
        let sub = key.subrange(d + 1, key.len() as int);
        lemma_split_utf8(key, d);
        let rest = s.drop_first();
        assert(writable_pairs(rest)) by {
            assert forall|i: int| 0 <= i < rest.len() implies {
                &&& writable_key(#[trigger] rest[i].0)
                &&& no_newline(rest[i].1)
                &&& vstd::utf8::valid_utf8(rest[i].0)
                &&& vstd::utf8::valid_utf8(rest[i].1)
            } by {
                assert(rest[i] == s[i + 1]);
            }
            assert forall|i: int, j: int| 0 <= i < j < rest.len() implies bytes_lt(#[trigger] rest[i].0, #[trigger] rest[j].0) by {
                assert(rest[i] == s[i + 1] && rest[j] == s[j + 1]);
            }
        }
        let rest_text = toml_body(rest, section);
        lemma_body_utf8(rest, section);
        let q = seq![34u8];
        let nl = seq![10u8];
        let eq = lit(" = ");
        lemma_ascii_utf8(q);
        lemma_ascii_utf8(nl);
        lemma_ascii_utf8(eq);
        lemma_ascii_utf8(seq![91u8]);
        lemma_ascii_utf8(seq![93u8]);
        lemma_ascii_utf8(Seq::<u8>::empty());
        let rv = render_value(val);
        if rv != val {
            vstd::utf8::valid_utf8_concat(q, val);
            vstd::utf8::valid_utf8_concat(q + val, q);
        }
        assert(vstd::utf8::valid_utf8(rv));
        vstd::utf8::valid_utf8_concat(sub, eq);
        vstd::utf8::valid_utf8_concat(sub + eq, rv);
        let kl = key_line(sub, val);
        vstd::utf8::valid_utf8_concat(kl, nl);
        vstd::utf8::valid_utf8_concat(kl + nl, rest_text);
        let tail = kl + nl + rest_text;
        vstd::utf8::valid_utf8_concat(seq![91u8], section);
        vstd::utf8::valid_utf8_concat(seq![91u8] + section, seq![93u8]);
        let h = header_line(section);
        vstd::utf8::valid_utf8_concat(h, nl);
        vstd::utf8::valid_utf8_concat(h + nl, tail);
        let t2 = h + nl + tail;
        vstd::utf8::valid_utf8_concat(nl, t2);
        if section != last {
            if last.len() > 0 {
                assert(toml_body(s, last) =~= nl + t2);
            } else {
                assert(toml_body(s, last) =~= t2);
            }
        } else {
            assert(toml_body(s, last) =~= tail);
        }
    }
}

/// Settings written as text read back as the same settings, when every
/// key is a non-empty section, `.` and a name that can stand on its own
/// line (no `=`, no surrounding space, no leading `#`), no key or value
/// holds a line feed, all are UTF-8, and the keys are in increasing order,
/// as parsing leaves them.
pub proof fn lemma_toml_roundtrip(ps: Seq<(Seq<u8>, Seq<u8>)>)
    requires
        writable_pairs(ps),
    ensures
        spec_sysconfig(spec_to_toml(ps)) == ps,
{
    reveal_strlit("# genos system configuration\n\n");
    let full = lit("# genos system configuration\n\n");
    assert(full.len() == 30);
    let c = full.subrange(0, 28);
    assert(c[0] == 35);
    assert(c[27] == 110);
    assert forall|k: int| 0 <= k < c.len() implies #[trigger] c[k] != 10 && c[k] < 128 by {
        assert(c[k] == full[k]);
    }
    assert(full =~= c + seq![10u8] + (Seq::<u8>::empty() + seq![10u8]));
    let body = toml_body(ps, seq![]);
    let text = spec_to_toml(ps);
    assert(text =~= c + seq![10u8] + (Seq::<u8>::empty() + seq![10u8] + body));
    lemma_lines_cons(c, Seq::<u8>::empty() + seq![10u8] + body);
    lemma_lines_cons(Seq::<u8>::empty(), body);
    let st0 = (Seq::<u8>::empty(), Seq::<(Seq<u8>, Seq<u8>)>::empty());
    lemma_trim_exact(c, 0, 28);
    assert(c.subrange(0, 28) =~= c);
    assert(strip_cr(c) == c);
    assert(step_line(st0, c) == st0);
    lemma_fold_cons(st0, c, lines(Seq::<u8>::empty() + seq![10u8] + body));
    lemma_step_empty(st0);
    lemma_fold_cons(st0, Seq::<u8>::empty(), lines(body));
    lemma_body(ps, Seq::<u8>::empty(), Seq::<(Seq<u8>, Seq<u8>)>::empty());
    assert(Seq::<(Seq<u8>, Seq<u8>)>::empty() + ps =~= ps);
    lemma_ascii_utf8(full);
    lemma_body_utf8(ps, Seq::<u8>::empty());
    vstd::utf8::valid_utf8_concat(full, body);
}


/// Keys in strictly increasing order: each key once.
pub open spec fn keys_sorted(ps: Seq<(Seq<u8>, Seq<u8>)>) -> bool {
    forall|i: int, j: int| 0 <= i < j < ps.len() ==> bytes_lt(#[trigger] ps[i].0, #[trigger] ps[j].0)
}

/// Every key and value is UTF-8.
pub open spec fn pairs_utf8(ps: Seq<(Seq<u8>, Seq<u8>)>) -> bool {
    forall|i: int| 0 <= i < ps.len() ==> vstd::utf8::valid_utf8(#[trigger] ps[i].0) && vstd::utf8::valid_utf8(ps[i].1)
}

/// Setting a key keeps the keys strictly increasing; each pair after is
/// the one set or one from before.
proof fn lemma_sorted_insert_keeps(s: Seq<(Seq<u8>, Seq<u8>)>, k: Seq<u8>, v: Seq<u8>)
    requires
        keys_sorted(s),
    ensures
        keys_sorted(sorted_insert(s, k, v)),
        forall|i: int| 0 <= i < sorted_insert(s, k, v).len() ==> #[trigger] sorted_insert(s, k, v)[i] == (k, v) || s.contains(sorted_insert(s, k, v)[i]),
    decreases s.len(),
{
    let r = sorted_insert(s, k, v);
    if s.len() == 0 {
    } else if s[0].0 == k {
        let t = s.drop_first();
        assert forall|i: int| 0 <= i < r.len() implies #[trigger] r[i] == (k, v) || s.contains(r[i]) by {
            if i > 0 {
                assert(r[i] == s[i]);
            }
        }
        assert forall|i: int, j: int| 0 <= i < j < r.len() implies bytes_lt(#[trigger] r[i].0, #[trigger] r[j].0) by {
            assert(r[j] == s[j]);
            if i > 0 {
                assert(r[i] == s[i]);
            }
        }
    } else if bytes_lt(k, s[0].0) {
        assert forall|i: int| 0 <= i < r.len() implies #[trigger] r[i] == (k, v) || s.contains(r[i]) by {
            if i > 0 {
                assert(r[i] == s[i - 1]);
            }
        }
        assert forall|i: int, j: int| 0 <= i < j < r.len() implies bytes_lt(#[trigger] r[i].0, #[trigger] r[j].0) by {
            assert(r[j] == s[j - 1]);
            if i > 0 {
                assert(r[i] == s[i - 1]);
            } else if j - 1 > 0 {
                lemma_bytes_lt_trans(k, s[0].0, s[j - 1].0);
            }
        }
    } else {
        let t = s.drop_first();
        assert(keys_sorted(t)) by {
            assert forall|i: int, j: int| 0 <= i < j < t.len() implies bytes_lt(#[trigger] t[i].0, #[trigger] t[j].0) by {
                assert(t[i] == s[i + 1] && t[j] == s[j + 1]);
            }
        }
        lemma_sorted_insert_keeps(t, k, v);
        let q = sorted_insert(t, k, v);
        assert(r == seq![s[0]] + q);
        lemma_bytes_lt_total(k, s[0].0);
        assert forall|i: int| 0 <= i < r.len() implies #[trigger] r[i] == (k, v) || s.contains(r[i]) by {
            if i == 0 {
                assert(s[0] == r[0]);
            } else {
                assert(r[i] == q[i - 1]);
                if q[i - 1] != (k, v) {
                    let j = choose|j: int| 0 <= j < t.len() && t[j] == q[i - 1];
                    assert(s[j + 1] == t[j]);
                }
            }
        }
        assert forall|i: int, j: int| 0 <= i < j < r.len() implies bytes_lt(#[trigger] r[i].0, #[trigger] r[j].0) by {
            assert(r[j] == q[j - 1]);
            if i > 0 {
                assert(r[i] == q[i - 1]);
            } else {
                if q[j - 1] != (k, v) {
                    let m = choose|m: int| 0 <= m < t.len() && t[m] == q[j - 1];
                    assert(s[m + 1] == t[m]);
                }
            }
        }
    }
}

/// Setting a UTF-8 key to a UTF-8 value keeps every pair UTF-8.
proof fn lemma_sorted_insert_utf8(s: Seq<(Seq<u8>, Seq<u8>)>, k: Seq<u8>, v: Seq<u8>)
    requires
        keys_sorted(s),
        pairs_utf8(s),
        vstd::utf8::valid_utf8(k),
        vstd::utf8::valid_utf8(v),
    ensures
        pairs_utf8(sorted_insert(s, k, v)),
{
    lemma_sorted_insert_keeps(s, k, v);
    let r = sorted_insert(s, k, v);
    assert forall|i: int| 0 <= i < r.len() implies vstd::utf8::valid_utf8(#[trigger] r[i].0) && vstd::utf8::valid_utf8(r[i].1) by {
        if r[i] != (k, v) {
            let j = choose|j: int| 0 <= j < s.len() && s[j] == r[i];
        }
    }
}

proof fn lemma_skip_utf8(s: Seq<u8>, i: int)
    requires
        0 <= i <= s.len(),
        vstd::utf8::valid_utf8(s.subrange(i, s.len() as int)),
    ensures
        vstd::utf8::valid_utf8(s.subrange(skip_space(s, i), s.len() as int)),
    decreases s.len() - i,
{
    if i < s.len() && is_space(s[i]) {
        let t = s.subrange(i, s.len() as int);
        lemma_split_utf8(t, 0);
        assert(t.subrange(1, t.len() as int) =~= s.subrange(i + 1, s.len() as int));
        lemma_skip_utf8(s, i + 1);
    }
}

proof fn lemma_rskip_utf8(s: Seq<u8>, lo: int, j: int)
    requires
        0 <= lo <= j <= s.len(),
        vstd::utf8::valid_utf8(s.subrange(lo, j)),
    ensures
        vstd::utf8::valid_utf8(s.subrange(lo, rskip_space(s, lo, j))),
    decreases j - lo,
{
    if j > lo && is_space(s[j - 1]) {
        let t = s.subrange(lo, j);
        lemma_split_utf8(t, t.len() - 1);
        assert(t.subrange(0, t.len() - 1) =~= s.subrange(lo, j - 1));
        lemma_rskip_utf8(s, lo, j - 1);
    }
}

/// Trimming UTF-8 text leaves UTF-8 text.
proof fn lemma_trim_utf8(s: Seq<u8>)
    requires
        vstd::utf8::valid_utf8(s),
    ensures
        vstd::utf8::valid_utf8(trim(s)),
{
    assert(s.subrange(0, s.len() as int) =~= s);
    lemma_skip_utf8(s, 0);
    let a = skip_space(s, 0);
    lemma_skip_space_bounds(s, 0);
    lemma_rskip_utf8(s, a, s.len() as int);
}

/// The lines of UTF-8 text are UTF-8.
proof fn lemma_lines_utf8(s: Seq<u8>)
    requires
        vstd::utf8::valid_utf8(s),
    ensures
        forall|k: int| 0 <= k < lines(s).len() ==> vstd::utf8::valid_utf8(#[trigger] lines(s)[k]),
    decreases s.len(),
{
    if s.len() > 0 {
        lemma_find_from(s, 10, 0);
        match find(s, 10) {
            Some(j) => {
                lemma_split_utf8(s, j);
                let first = s.subrange(0, j);
                if first.len() > 0 && first.last() == 13 {
                    lemma_split_utf8(first, first.len() - 1);
                    assert(first.subrange(0, first.len() - 1) =~= first.drop_last());
                }
                lemma_lines_utf8(s.subrange(j + 1, s.len() as int));
                let ls = lines(s);
                assert forall|k: int| 0 <= k < ls.len() implies vstd::utf8::valid_utf8(#[trigger] ls[k]) by {
                    if k > 0 {
                        assert(ls[k] == lines(s.subrange(j + 1, s.len() as int))[k - 1]);
                    }
                }
            },
            None => {},
        }
    }
}

/// What reading a line of UTF-8 text leaves: the current section and every
/// pair UTF-8, and the keys still strictly increasing.
proof fn lemma_step_keeps(st: (Seq<u8>, Seq<(Seq<u8>, Seq<u8>)>), raw: Seq<u8>)
    requires
        vstd::utf8::valid_utf8(st.0),
        keys_sorted(st.1),
        pairs_utf8(st.1),
        vstd::utf8::valid_utf8(raw),
    ensures
        vstd::utf8::valid_utf8(step_line(st, raw).0),
        keys_sorted(step_line(st, raw).1),
        pairs_utf8(step_line(st, raw).1),
{
    lemma_trim_utf8(raw);
    let l = trim(raw);
    if l.len() == 0 || l[0] == 35 {
    } else if l[0] == 91 && l[l.len() - 1] == 93 && l.len() >= 2 {
        lemma_split_utf8(l, 0);
        let t = l.subrange(1, l.len() as int);
        lemma_split_utf8(t, t.len() - 1);
        assert(t.subrange(0, t.len() - 1) =~= l.subrange(1, l.len() - 1));
    } else {
        lemma_find_from(l, 61, 0);
        match find(l, 61) {
            None => {},
            Some(i) => {
                lemma_split_utf8(l, i);
                lemma_trim_utf8(l.subrange(0, i));
                lemma_trim_utf8(l.subrange(i + 1, l.len() as int));
                let key = trim(l.subrange(0, i));
                let v = trim(l.subrange(i + 1, l.len() as int));
                if v.len() >= 2 && v[0] == 34 && v[v.len() - 1] == 34 {
                    lemma_split_utf8(v, 0);
                    let w = v.subrange(1, v.len() as int);
                    lemma_split_utf8(w, w.len() - 1);
                    assert(w.subrange(0, w.len() - 1) =~= v.subrange(1, v.len() - 1));
                }
                let full = if st.0.len() == 0 { key } else { st.0 + seq![46u8] + key };
                if st.0.len() > 0 {
                    lemma_ascii_utf8(seq![46u8]);
                    vstd::utf8::valid_utf8_concat(st.0, seq![46u8]);
                    vstd::utf8::valid_utf8_concat(st.0 + seq![46u8], key);
                }
                lemma_sorted_insert_keeps(st.1, full, unquote(v));
                lemma_sorted_insert_utf8(st.1, full, unquote(v));
            },
        }
    }
}

proof fn lemma_fold_keeps(st: (Seq<u8>, Seq<(Seq<u8>, Seq<u8>)>), ls: Seq<Seq<u8>>)
    requires
        vstd::utf8::valid_utf8(st.0),
        keys_sorted(st.1),
        pairs_utf8(st.1),
        forall|k: int| 0 <= k < ls.len() ==> vstd::utf8::valid_utf8(#[trigger] ls[k]),
    ensures
        keys_sorted(fold_lines(st, ls).1),
        pairs_utf8(fold_lines(st, ls).1),
    decreases ls.len(),
{
    if ls.len() > 0 {
        lemma_step_keeps(st, ls[0]);
        let rest = ls.drop_first();
        assert forall|k: int| 0 <= k < rest.len() implies vstd::utf8::valid_utf8(#[trigger] rest[k]) by {
            assert(rest[k] == ls[k + 1]);
        }
        lemma_fold_keeps(step_line(st, ls[0]), rest);
    }
}

/// Parsed settings hold each key once, in increasing order, with UTF-8
/// keys and values.
pub proof fn lemma_parsed_well_formed(data: Seq<u8>)
    ensures
        keys_sorted(spec_sysconfig(data)),
        pairs_utf8(spec_sysconfig(data)),
{
    if vstd::utf8::valid_utf8(data) {
        lemma_lines_utf8(data);
        lemma_ascii_utf8(Seq::<u8>::empty());
        lemma_fold_keeps((seq![], seq![]), lines(data));
    }
}


proof fn lemma_insert_literal(s: Seq<(Seq<u8>, Seq<u8>)>, k: &str, v: &str)
    requires
        keys_sorted(s),
        pairs_utf8(s),
        forall|i: int| 0 <= i < lit(k).len() ==> #[trigger] lit(k)[i] < 128,
        forall|i: int| 0 <= i < lit(v).len() ==> #[trigger] lit(v)[i] < 128,
    ensures
        keys_sorted(sorted_insert(s, lit(k), lit(v))),
        pairs_utf8(sorted_insert(s, lit(k), lit(v))),
{
    lemma_ascii_utf8(lit(k));
    lemma_ascii_utf8(lit(v));
    lemma_sorted_insert_keeps(s, lit(k), lit(v));
    lemma_sorted_insert_utf8(s, lit(k), lit(v));
}

/// The default settings hold each key once, in increasing order, with
/// UTF-8 keys and values.
pub proof fn lemma_defaults_well_formed()
    ensures
        keys_sorted(default_values()),
        pairs_utf8(default_values()),
{
    reveal_strlit("sampling.temperature");
    reveal_strlit("1.0");
    reveal_strlit("sampling.top_p");
    reveal_strlit("0.9");
    reveal_strlit("sampling.top_k");
    reveal_strlit("40");
    reveal_strlit("context.budget");
    reveal_strlit("256");
    reveal_strlit("context.pre_compact_threshold");
    reveal_strlit("0.8");
    reveal_strlit("memory.consolidation_interval");
    reveal_strlit("20");
    let s0 = Seq::<(Seq<u8>, Seq<u8>)>::empty();
    lemma_insert_literal(s0, "sampling.temperature", "1.0");
    let s1 = sorted_insert(s0, lit("sampling.temperature"), lit("1.0"));
    lemma_insert_literal(s1, "sampling.top_p", "0.9");
    let s2 = sorted_insert(s1, lit("sampling.top_p"), lit("0.9"));
    lemma_insert_literal(s2, "sampling.top_k", "40");
    let s3 = sorted_insert(s2, lit("sampling.top_k"), lit("40"));
    lemma_insert_literal(s3, "context.budget", "256");
    let s4 = sorted_insert(s3, lit("context.budget"), lit("256"));
    lemma_insert_literal(s4, "context.pre_compact_threshold", "0.8");
    let s5 = sorted_insert(s4, lit("context.pre_compact_threshold"), lit("0.8"));
    lemma_insert_literal(s5, "memory.consolidation_interval", "20");
}

/// A configuration whose keys are each a non-empty section, `.` and a
/// name that can stand on its own line, and whose values hold no line
/// feed, reads back from its text as it is.
pub proof fn lemma_config_roundtrip(c: SystemConfig)
    requires
        c.wf(),
        forall|i: int| 0 <= i < c.pairs().len() ==> writable_key(#[trigger] c.pairs()[i].0) && no_newline(c.pairs()[i].1),
    ensures
        spec_sysconfig(spec_to_toml(c.pairs())) == c.pairs(),
{
    lemma_toml_roundtrip(c.pairs());
}

} // verus!
