//! JSON values, parsing and serialisation.
//!
//! Objects keep their members in key order with distinct keys (a later
//! member with the same key replaces an earlier one). A number is kept as
//! its text: the parser stores the literal as written, and conversion to
//! and from floating point happens outside the library.

use vstd::prelude::*;

use crate::http::{hex_digit_value, is_hex_digit};
use crate::text::{
    ascii_bytes, bytes_eq, digit_run, has_prefix, is_digit, is_utf8, lemma_digit_run, lit, push_all,
    starts_with, to_vec,
};
use crate::sysconfig::{bytes_less, bytes_lt};

verus! {

/// A JSON value.
#[derive(Debug)]
pub enum JsonValue {
    Null,
    Bool(bool),
    Number(Vec<u8>),
    Str(Vec<u8>),
    Array(Vec<JsonValue>),
    Object(Vec<(Vec<u8>, JsonValue)>),
}

/// Mathematical model of a [`JsonValue`].
#[verifier::ext_equal]
pub enum JModel {
    Null,
    Bool(bool),
    Number(Seq<u8>),
    Str(Seq<u8>),
    Array(Seq<JModel>),
    Object(Seq<(Seq<u8>, JModel)>),
}

/// The model of a value.
pub open spec fn jview(v: JsonValue) -> JModel
    decreases v, 0nat,
{
    match v {
        JsonValue::Null => JModel::Null,
        JsonValue::Bool(b) => JModel::Bool(b),
        JsonValue::Number(n) => JModel::Number(n@),
        JsonValue::Str(s) => JModel::Str(s@),
        JsonValue::Array(a) => JModel::Array(jviews(a@)),
        JsonValue::Object(m) => JModel::Object(jentries(m@)),
    }
}

/// The models of a sequence of values.
pub open spec fn jviews(s: Seq<JsonValue>) -> Seq<JModel>
    decreases s, 1nat,
{
    if s.len() == 0 {
        seq![]
    } else {
        jviews(s.drop_last()).push(jview(s.last()))
    }
}

/// The models of object members.
pub open spec fn jentries(s: Seq<(Vec<u8>, JsonValue)>) -> Seq<(Seq<u8>, JModel)>
    decreases s, 1nat,
{
    if s.len() == 0 {
        seq![]
    } else {
        jentries(s.drop_last()).push((s.last().0@, jview(s.last().1)))
    }
}

pub proof fn lemma_jviews_index(s: Seq<JsonValue>, i: int)
    requires
        0 <= i < s.len(),
    ensures
        jviews(s).len() == s.len(),
        jviews(s)[i] == jview(s[i]),
    decreases s.len(),
{
    if i < s.len() - 1 {
        lemma_jviews_index(s.drop_last(), i);
    } else {
        lemma_jviews_len(s.drop_last());
    }
}

pub proof fn lemma_jviews_len(s: Seq<JsonValue>)
    ensures
        jviews(s).len() == s.len(),
    decreases s.len(),
{
    if s.len() > 0 {
        lemma_jviews_len(s.drop_last());
    }
}

pub proof fn lemma_jentries_len(s: Seq<(Vec<u8>, JsonValue)>)
    ensures
        jentries(s).len() == s.len(),
    decreases s.len(),
{
    if s.len() > 0 {
        lemma_jentries_len(s.drop_last());
    }
}

pub proof fn lemma_jentries_index(s: Seq<(Vec<u8>, JsonValue)>, i: int)
    requires
        0 <= i < s.len(),
    ensures
        jentries(s).len() == s.len(),
        jentries(s)[i] == (s[i].0@, jview(s[i].1)),
    decreases s.len(),
{
    if i < s.len() - 1 {
        lemma_jentries_index(s.drop_last(), i);
    } else {
        lemma_jentries_len(s.drop_last());
    }
}

/// The value of the first member with this key.
pub open spec fn member(m: Seq<(Seq<u8>, JModel)>, key: Seq<u8>) -> Option<JModel>
    decreases m.len(),
{
    if m.len() == 0 {
        None
    } else if m[0].0 == key {
        Some(m[0].1)
    } else {
        member(m.drop_first(), key)
    }
}

/// The value under a key of an object (none for other values).
pub open spec fn jget(v: JModel, key: Seq<u8>) -> Option<JModel> {
    match v {
        JModel::Object(m) => member(m, key),
        _ => None,
    }
}

/// Members in key order after setting `k` to `v`.
pub open spec fn jinsert(s: Seq<(Seq<u8>, JModel)>, k: Seq<u8>, v: JModel) -> Seq<(Seq<u8>, JModel)>
    decreases s.len(),
{
    if s.len() == 0 {
        seq![(k, v)]
    } else if s[0].0 == k {
        seq![(k, v)] + s.drop_first()
    } else if bytes_lt(k, s[0].0) {
        seq![(k, v)] + s
    } else {
        seq![s[0]] + jinsert(s.drop_first(), k, v)
    }
}

impl JsonValue {
    pub open spec fn view(&self) -> JModel {
        jview(*self)
    }

    pub fn as_str(&self) -> (r: Option<&[u8]>)
        ensures
            match r {
                Some(s) => self@ == JModel::Str(s@),
                None => !(self@ is Str),
            },
    {
        match self {
            JsonValue::Str(s) => Some(s.as_slice()),
            _ => None,
        }
    }

    /// The text of a number.
    pub fn as_number(&self) -> (r: Option<&[u8]>)
        ensures
            match r {
                Some(s) => self@ == JModel::Number(s@),
                None => !(self@ is Number),
            },
    {
        match self {
            JsonValue::Number(s) => Some(s.as_slice()),
            _ => None,
        }
    }

    pub fn as_bool(&self) -> (r: Option<bool>)
        ensures
            match r {
                Some(b) => self@ == JModel::Bool(b),
                None => !(self@ is Bool),
            },
    {
        match self {
            JsonValue::Bool(b) => Some(*b),
            _ => None,
        }
    }

    /// The members of an object, in key order.
    pub fn as_object(&self) -> (r: Option<&Vec<(Vec<u8>, JsonValue)>>)
        ensures
            match r {
                Some(m) => self@ == JModel::Object(jentries(m@)),
                None => !(self@ is Object),
            },
    {
        match self {
            JsonValue::Object(m) => Some(m),
            _ => None,
        }
    }

    pub fn as_array(&self) -> (r: Option<&Vec<JsonValue>>)
        ensures
            match r {
                Some(a) => self@ == JModel::Array(jviews(a@)),
                None => !(self@ is Array),
            },
    {
        match self {
            JsonValue::Array(a) => Some(a),
            _ => None,
        }
    }

    /// The value under a key of an object.
    pub fn get(&self, key: &[u8]) -> (r: Option<&JsonValue>)
        ensures
            match r {
                Some(v) => jget(self@, key@) == Some(v@),
                None => jget(self@, key@) is None,
            },
    {
        match self {
            JsonValue::Object(m) => {
                let ghost me = jentries(m@);
                let mut i: usize = 0;
                proof {
                    lemma_jentries_len(m@);
                }
                assert(me.subrange(0, me.len() as int) =~= me);
                while i < m.len()
                    invariant
                        0 <= i <= m@.len(),
                        me == jentries(m@),
                        me.len() == m@.len(),
                        jget(self@, key@) == member(me, key@),
                        member(me, key@) == member(me.subrange(i as int, me.len() as int), key@),
                    decreases m.len() - i,
                {
                    proof {
                        lemma_jentries_index(m@, i as int);
                    }
                    let ghost rest = me.subrange(i as int, me.len() as int);
                    assert(rest[0] == me[i as int]);
                    assert(rest.drop_first() =~= me.subrange(i + 1, me.len() as int));
                    if bytes_eq(m[i].0.as_slice(), key) {
                        return Some(&m[i].1);
                    }
                    i = i + 1;
                }
                None
            },
            _ => None,
        }
    }

    /// An independent copy.
    pub fn duplicate(&self) -> (r: JsonValue)
        ensures
            r@ == self@,
        decreases self,
    {
        match self {
            JsonValue::Null => JsonValue::Null,
            JsonValue::Bool(b) => JsonValue::Bool(*b),
            JsonValue::Number(n) => JsonValue::Number(to_vec(n.as_slice())),
            JsonValue::Str(s) => JsonValue::Str(to_vec(s.as_slice())),
            JsonValue::Array(a) => {
                let mut out: Vec<JsonValue> = Vec::new();
                let mut i: usize = 0;
                while i < a.len()
                    invariant
                        0 <= i <= a@.len(),
                        *self == JsonValue::Array(*a),
                        jviews(out@) == jviews(a@.subrange(0, i as int)),
                    decreases a.len() - i,
                {
                    assert(decreases_to!(*self => (*self)->Array_0));
                    assert(decreases_to!(*a => a@));
                    assert(decreases_to!(a@ => a@[i as int]));
                    let c = a[i].duplicate();
                    let ghost o0 = out@;
                    out.push(c);
                    proof {
                        assert(out@.drop_last() =~= o0);
                        assert(a@.subrange(0, i + 1).drop_last() =~= a@.subrange(0, i as int));
                    }
                    i = i + 1;
                }
                assert(a@.subrange(0, i as int) =~= a@);
                JsonValue::Array(out)
            },
            JsonValue::Object(m) => {
                let mut out: Vec<(Vec<u8>, JsonValue)> = Vec::new();
                let mut i: usize = 0;
                while i < m.len()
                    invariant
                        0 <= i <= m@.len(),
                        *self == JsonValue::Object(*m),
                        jentries(out@) == jentries(m@.subrange(0, i as int)),
                    decreases m.len() - i,
                {
                    assert(decreases_to!(*self => (*self)->Object_0));
                    assert(decreases_to!(*m => m@));
                    assert(decreases_to!(m@ => m@[i as int]));
                    assert(decreases_to!(m@[i as int] => m@[i as int].1));
                    let c = m[i].1.duplicate();
                    let k = to_vec(m[i].0.as_slice());
                    let ghost o0 = out@;
                    out.push((k, c));
                    proof {
                        assert(out@.drop_last() =~= o0);
                        assert(m@.subrange(0, i + 1).drop_last() =~= m@.subrange(0, i as int));
                    }
                    i = i + 1;
                }
                assert(m@.subrange(0, i as int) =~= m@);
                JsonValue::Object(out)
            },
        }
    }
}

/// Sets a member of an object's member list, keeping key order.
pub fn object_insert(members: &mut Vec<(Vec<u8>, JsonValue)>, key: Vec<u8>, value: JsonValue)
    ensures
        jentries(final(members)@) == jinsert(jentries(old(members)@), key@, value@),
{
    let ghost all = jentries(members@);
    proof {
        lemma_jentries_len(members@);
    }
    let ghost kk = key@;
    let ghost vv = value@;
    let mut i: usize = 0;
    assert(all.subrange(0, all.len() as int) =~= all);
    assert(all.subrange(0, 0) + jinsert(all, kk, vv) =~= jinsert(all, kk, vv));
    while i < members.len()
        invariant
            0 <= i <= members@.len(),
            members@ == old(members)@,
            all == jentries(members@),
            all.len() == members@.len(),
            kk == key@,
            vv == value@,
            jinsert(all, kk, vv) == all.subrange(0, i as int) + jinsert(
                all.subrange(i as int, all.len() as int),
                kk,
                vv,
            ),
        decreases members.len() - i,
    {
        proof {
            lemma_jentries_index(members@, i as int);
        }
        let ghost rest = all.subrange(i as int, all.len() as int);
        assert(rest[0] == all[i as int]);
        if bytes_eq(members[i].0.as_slice(), key.as_slice()) {
            let ghost m0 = members@;
            members.set(i, (key, value));
            proof {
                assert forall|j: int| 0 <= j < members@.len() implies #[trigger] jentries(members@)[j]
                    == (all.subrange(0, i as int) + (seq![(kk, vv)] + rest.drop_first()))[j] by {
                    lemma_jentries_index(members@, j);
                    lemma_jentries_index(m0, j);
                }
                lemma_jentries_len(members@);
                assert(jentries(members@) =~= all.subrange(0, i as int) + (seq![(kk, vv)]
                    + rest.drop_first()));
            }
            return;
        }
        if bytes_less(key.as_slice(), members[i].0.as_slice()) {
            let ghost m0 = members@;
            members.insert(i, (key, value));
            proof {
                lemma_jentries_len(members@);
                assert forall|j: int| 0 <= j < members@.len() implies #[trigger] jentries(members@)[j]
                    == (all.subrange(0, i as int) + (seq![(kk, vv)] + rest))[j] by {
                    lemma_jentries_index(members@, j);
                    if j < i {
                        lemma_jentries_index(m0, j);
                    } else if j > i {
                        lemma_jentries_index(m0, j - 1);
                    }
                }
                assert(jentries(members@) =~= all.subrange(0, i as int) + (seq![(kk, vv)] + rest));
            }
            return;
        }
        assert(all.subrange(0, i as int) + (seq![rest[0]] + jinsert(rest.drop_first(), kk, vv))
            =~= all.subrange(0, i + 1) + jinsert(all.subrange(i + 1, all.len() as int), kk, vv))
            by {
            assert(rest.drop_first() =~= all.subrange(i + 1, all.len() as int));
        }
        i = i + 1;
    }
    let ghost m0 = members@;
    members.push((key, value));
    assert(all.subrange(i as int, all.len() as int) =~= seq![]);
    assert(members@.drop_last() =~= m0);
    assert(jentries(members@) =~= all.subrange(0, i as int) + seq![(kk, vv)]);
}

/// An object built from pairs in order (a later pair with a repeated key
/// wins).
pub open spec fn object_of(pairs: Seq<(Seq<u8>, JModel)>) -> Seq<(Seq<u8>, JModel)>
    decreases pairs.len(),
{
    if pairs.len() == 0 {
        seq![]
    } else {
        jinsert(object_of(pairs.drop_last()), pairs.last().0, pairs.last().1)
    }
}

/// Builds an object from key/value pairs.
pub fn json_object(pairs: Vec<(Vec<u8>, JsonValue)>) -> (r: JsonValue)
    ensures
        r@ == JModel::Object(object_of(jentries(pairs@))),
{
    let ghost pv = jentries(pairs@);
    proof {
        lemma_jentries_len(pairs@);
    }
    let mut members: Vec<(Vec<u8>, JsonValue)> = Vec::new();
    let mut rest = pairs;
    let mut i: usize = 0;
    let n = rest.len();
    assert(jentries(members@) =~= seq![]);
    while i < n
        invariant
            0 <= i <= n,
            rest@.len() == n - i,
            pv.len() == n,
            forall|k: int| 0 <= k < n - i ==> (#[trigger] jentries(rest@)[k]) == pv[i + k],
            jentries(members@) == object_of(pv.subrange(0, i as int)),
        decreases n - i,
    {
        let ghost r0 = rest@;
        let (k, v) = rest.remove(0);
        proof {
            lemma_jentries_index(r0, 0);
            assert(rest@ =~= r0.drop_first());
            assert forall|q: int| 0 <= q < n - i - 1 implies (#[trigger] jentries(rest@)[q]) == pv[i
                + 1 + q] by {
                lemma_jentries_index(rest@, q);
                lemma_jentries_index(r0, q + 1);
                assert(jentries(r0)[q + 1] == pv[i + q + 1]);
            }
            assert(pv.subrange(0, i + 1).drop_last() =~= pv.subrange(0, i as int));
            assert(pv[i as int] == (k@, v@));
        }
        object_insert(&mut members, k, v);
        i = i + 1;
    }
    assert(pv.subrange(0, n as int) =~= pv);
    JsonValue::Object(members)
}


/// The escaped form of one byte inside a JSON string.
pub open spec fn esc_byte(b: u8) -> Seq<u8> {
    if b == 34 {
        seq![92u8, 34u8]
    } else if b == 92 {
        seq![92u8, 92u8]
    } else if b == 10 {
        seq![92u8, 110u8]
    } else if b == 13 {
        seq![92u8, 114u8]
    } else if b == 9 {
        seq![92u8, 116u8]
    } else {
        seq![b]
    }
}

/// The escaped form of a string's bytes.
pub open spec fn escape(s: Seq<u8>) -> Seq<u8>
    decreases s.len(),
{
    if s.len() == 0 {
        seq![]
    } else {
        escape(s.drop_last()) + esc_byte(s.last())
    }
}

/// A string as JSON text.
pub open spec fn jstr(s: Seq<u8>) -> Seq<u8> {
    seq![34u8] + escape(s) + seq![34u8]
}

/// The JSON text of a value: members of objects in their order, numbers
/// as their stored text, no whitespace.
pub open spec fn jtext(v: JModel) -> Seq<u8>
    decreases v, 0nat,
{
    match v {
        JModel::Null => lit("null"),
        JModel::Bool(b) => if b {
            lit("true")
        } else {
            lit("false")
        },
        JModel::Number(n) => n,
        JModel::Str(s) => jstr(s),
        JModel::Array(a) => seq![91u8] + jlist(a) + seq![93u8],
        JModel::Object(m) => seq![123u8] + jmembers(m) + seq![125u8],
    }
}

/// Comma-separated texts of values.
pub open spec fn jlist(a: Seq<JModel>) -> Seq<u8>
    decreases a, 1nat,
{
    if a.len() == 0 {
        seq![]
    } else if a.len() == 1 {
        jtext(a[0])
    } else {
        jlist(a.drop_last()) + seq![44u8] + jtext(a.last())
    }
}

/// Comma-separated `"key":value` texts of members.
pub open spec fn jmembers(m: Seq<(Seq<u8>, JModel)>) -> Seq<u8>
    decreases m, 1nat,
{
    if m.len() == 0 {
        seq![]
    } else if m.len() == 1 {
        jstr(m[0].0) + seq![58u8] + jtext(m[0].1)
    } else {
        jmembers(m.drop_last()) + seq![44u8] + jstr(m.last().0) + seq![58u8] + jtext(m.last().1)
    }
}

/// Appends a string's JSON text.
pub fn write_str(s: &[u8], out: &mut Vec<u8>)
    ensures
        final(out)@ == old(out)@ + jstr(s@),
{
    let ghost o0 = out@;
    out.push(34);
    let mut i: usize = 0;
    while i < s.len()
        invariant
            0 <= i <= s@.len(),
            out@ == o0 + seq![34u8] + escape(s@.subrange(0, i as int)),
        decreases s.len() - i,
    {
        let b = s[i];
        if b == 34 {
            out.push(92);
            out.push(34);
        } else if b == 92 {
            out.push(92);
            out.push(92);
        } else if b == 10 {
            out.push(92);
            out.push(110);
        } else if b == 13 {
            out.push(92);
            out.push(114);
        } else if b == 9 {
            out.push(92);
            out.push(116);
        } else {
            out.push(b);
        }
        assert(s@.subrange(0, i + 1).drop_last() =~= s@.subrange(0, i as int));
        i = i + 1;
        assert(out@ =~= o0 + seq![34u8] + escape(s@.subrange(0, i as int)));
    }
    assert(s@.subrange(0, i as int) =~= s@);
    out.push(34);
}

/// Appends a value's JSON text.
pub fn write_json(v: &JsonValue, out: &mut Vec<u8>)
    ensures
        final(out)@ == old(out)@ + jtext(v@),
    decreases v,
{
    proof {
        reveal_strlit("null");
        reveal_strlit("true");
        reveal_strlit("false");
    }
    match v {
        JsonValue::Null => push_all(out, ascii_bytes("null").as_slice()),
        JsonValue::Bool(b) => {
            if *b {
                push_all(out, ascii_bytes("true").as_slice());
            } else {
                push_all(out, ascii_bytes("false").as_slice());
            }
        },
        JsonValue::Number(n) => push_all(out, n.as_slice()),
        JsonValue::Str(s) => write_str(s.as_slice(), out),
        JsonValue::Array(a) => {
            let ghost o0 = out@;
            out.push(91);
            let mut i: usize = 0;
            while i < a.len()
                invariant
                    0 <= i <= a@.len(),
                    *v == JsonValue::Array(*a),
                    out@ == o0 + seq![91u8] + jlist(jviews(a@.subrange(0, i as int))),
                decreases a.len() - i,
            {
                assert(decreases_to!(*v => (*v)->Array_0));
                assert(decreases_to!(*a => a@));
                assert(decreases_to!(a@ => a@[i as int]));
                let ghost prev = jviews(a@.subrange(0, i as int));
                proof {
                    lemma_jviews_len(a@.subrange(0, i as int));
                }
                if i > 0 {
                    out.push(44);
                }
                write_json(&a[i], out);
                proof {
                    assert(a@.subrange(0, i + 1).drop_last() =~= a@.subrange(0, i as int));
                    let cur = jviews(a@.subrange(0, i + 1));
                    assert(cur.drop_last() == prev);
                    assert(cur =~= prev.push(jview(a@[i as int])));
                    if i == 0 {
                        assert(prev.len() == 0);
                        assert(cur.len() == 1);
                    }
                }
                i = i + 1;
            }
            assert(a@.subrange(0, i as int) =~= a@);
            out.push(93);
        },
        JsonValue::Object(m) => {
            let ghost o0 = out@;
            out.push(123);
            let mut i: usize = 0;
            while i < m.len()
                invariant
                    0 <= i <= m@.len(),
                    *v == JsonValue::Object(*m),
                    out@ == o0 + seq![123u8] + jmembers(jentries(m@.subrange(0, i as int))),
                decreases m.len() - i,
            {
                assert(decreases_to!(*v => (*v)->Object_0));
                assert(decreases_to!(*m => m@));
                assert(decreases_to!(m@ => m@[i as int]));
                assert(decreases_to!(m@[i as int] => m@[i as int].1));
                let ghost prev = jentries(m@.subrange(0, i as int));
                proof {
                    lemma_jentries_len(m@.subrange(0, i as int));
                }
                if i > 0 {
                    out.push(44);
                }
                write_str(m[i].0.as_slice(), out);
                out.push(58);
                write_json(&m[i].1, out);
                proof {
                    assert(m@.subrange(0, i + 1).drop_last() =~= m@.subrange(0, i as int));
                    let cur = jentries(m@.subrange(0, i + 1));
                    assert(cur.drop_last() == prev);
                    assert(cur =~= prev.push((m@[i as int].0@, jview(m@[i as int].1))));
                }
                i = i + 1;
            }
            assert(m@.subrange(0, i as int) =~= m@);
            out.push(125);
        },
    }
}

impl JsonValue {
    /// Serialises to JSON text.
    pub fn to_json_string(&self) -> (r: Vec<u8>)
        ensures
            r@ == jtext(self@),
    {
        let mut out: Vec<u8> = Vec::new();
        write_json(self, &mut out);
        assert(out@ =~= jtext(self@));
        out
    }
}


// ---------------------------------------------------------------------
// Parsing
// ---------------------------------------------------------------------

/// Outcome of parsing from a position of the input.
pub enum PStep<T> {
    /// The parsed item and the position just after it.
    Done(T, int),
    /// A syntax error: its message and the position it names.
    Fail(Seq<u8>, int),
    /// Parsing would read past the end of the input (a panic).
    Abort,
}

/// JSON whitespace.
pub open spec fn is_ws(c: u8) -> bool {
    c == 32 || c == 9 || c == 10 || c == 13
}

/// The first position at or after `p` that is not whitespace.
pub open spec fn skip_ws(b: Seq<u8>, p: int) -> int
    decreases b.len() - p,
{
    if 0 <= p < b.len() && is_ws(b[p]) {
        skip_ws(b, p + 1)
    } else {
        p
    }
}

pub proof fn lemma_skip_ws(b: Seq<u8>, p: int)
    ensures
        p <= skip_ws(b, p),
        p <= b.len() ==> skip_ws(b, p) <= b.len(),
        0 <= p && skip_ws(b, p) < b.len() ==> !is_ws(b[skip_ws(b, p)]),
        forall|k: int| p <= k < skip_ws(b, p) ==> is_ws(#[trigger] b[k]),
    decreases b.len() - p,
{
    if 0 <= p < b.len() && is_ws(b[p]) {
        lemma_skip_ws(b, p + 1);
    }
}

/// UTF-8 encoding of a code point below 0x10000.
pub open spec fn utf8_of(c: int) -> Seq<u8> {
    if c < 0x80 {
        seq![c as u8]
    } else if c < 0x800 {
        seq![(0xC0 + c / 64) as u8, (0x80 + c % 64) as u8]
    } else {
        seq![(0xE0 + c / 4096) as u8, (0x80 + (c / 64) % 64) as u8, (0x80 + c % 64) as u8]
    }
}

/// What an escape `\e` (other than `\u`) stands for: the named control
/// characters, else the character whose code is the byte.
pub open spec fn escape_piece(e: u8) -> Seq<u8> {
    if e == 110 {
        seq![10u8]
    } else if e == 114 {
        seq![13u8]
    } else if e == 116 {
        seq![9u8]
    } else {
        utf8_of(e as int)
    }
}

/// What `\uXXXX` stands for: nothing for a surrogate code, else the
/// character.
pub open spec fn unicode_piece(c: int) -> Seq<u8> {
    if 0xD800 <= c <= 0xDFFF {
        seq![]
    } else {
        utf8_of(c)
    }
}

/// Whether four bytes read as a base-16 number: four hex digits, or a
/// plus sign and three.
pub open spec fn hex4_ok(h: Seq<u8>) -> bool {
    &&& h.len() == 4
    &&& h[0] == 43 || is_hex_digit(h[0])
    &&& is_hex_digit(h[1])
    &&& is_hex_digit(h[2])
    &&& is_hex_digit(h[3])
}

/// The number that four bytes accepted by [`hex4_ok`] denote.
pub open spec fn hex4_val(h: Seq<u8>) -> int {
    (if h[0] == 43 {
        0
    } else {
        hex_digit_value(h[0]) as int
    }) * 4096 + hex_digit_value(h[1]) * 256 + hex_digit_value(h[2]) * 16 + hex_digit_value(h[3])
}

/// Puts `s` in front of the bytes of a successful step.
pub open spec fn pre_bytes(s: Seq<u8>, r: PStep<Seq<u8>>) -> PStep<Seq<u8>> {
    match r {
        PStep::Done(t, e) => PStep::Done(s + t, e),
        PStep::Fail(m, e) => PStep::Fail(m, e),
        PStep::Abort => PStep::Abort,
    }
}

/// The contents of a string literal from position `i` (just after the
/// opening quote) to its closing quote. A byte outside an escape stands
/// for the character with that code.
pub open spec fn str_body(b: Seq<u8>, i: int) -> PStep<Seq<u8>>
    decreases b.len() - i,
{
    if i < 0 || i >= b.len() {
        PStep::Fail(lit("unterminated string"), i)
    } else if b[i] == 34 {
        PStep::Done(seq![], i + 1)
    } else if b[i] == 92 {
        let j = i + 1;
        if j >= b.len() {
            PStep::Fail(lit("unterminated escape"), j)
        } else if b[j] == 117 {
            let k = j + 1;
            if k + 4 > b.len() {
                PStep::Fail(lit("short unicode escape"), k)
            } else if !vstd::utf8::valid_utf8(b.subrange(k, k + 4)) {
                PStep::Fail(lit("bad unicode"), k)
            } else if !hex4_ok(b.subrange(k, k + 4)) {
                PStep::Fail(lit("bad hex"), k)
            } else {
                pre_bytes(unicode_piece(hex4_val(b.subrange(k, k + 4))), str_body(b, k + 4))
            }
        } else {
            pre_bytes(escape_piece(b[j]), str_body(b, j + 1))
        }
    } else {
        pre_bytes(utf8_of(b[i] as int), str_body(b, i + 1))
    }
}

/// A string literal at position `q`.
pub open spec fn jstring(b: Seq<u8>, q: int) -> PStep<Seq<u8>> {
    if q < 0 || q >= b.len() {
        PStep::Abort
    } else if b[q] != 34 {
        PStep::Fail(lit("expected '\"'"), q)
    } else {
        str_body(b, q + 1)
    }
}

/// The end of a number literal at `p`: an optional minus, digits, an
/// optional fraction and an optional exponent.
pub open spec fn num_end(b: Seq<u8>, p: int) -> int {
    let i1 = if p < b.len() && b[p] == 45 {
        p + 1
    } else {
        p
    };
    let i2 = digit_run(b, i1 as nat) as int;
    let i3 = if i2 < b.len() && b[i2] == 46 {
        digit_run(b, (i2 + 1) as nat) as int
    } else {
        i2
    };
    if i3 < b.len() && (b[i3] == 101 || b[i3] == 69) {
        let j = i3 + 1;
        let j2 = if j < b.len() && (b[j] == 43 || b[j] == 45) {
            j + 1
        } else {
            j
        };
        digit_run(b, j2 as nat) as int
    } else {
        i3
    }
}

/// The message for a byte that cannot start a value.
pub open spec fn unexpected_msg(c: u8) -> Seq<u8> {
    lit("unexpected char '") + utf8_of(c as int) + lit("'")
}

/// `true` or `false` at `q`.
pub open spec fn jbool(b: Seq<u8>, q: int) -> PStep<JModel> {
    if has_prefix(b.subrange(q, b.len() as int), lit("true")) {
        PStep::Done(JModel::Bool(true), q + 4)
    } else if has_prefix(b.subrange(q, b.len() as int), lit("false")) {
        PStep::Done(JModel::Bool(false), q + 5)
    } else {
        PStep::Fail(lit("expected bool"), q)
    }
}

/// `null` at `q`.
pub open spec fn jnull(b: Seq<u8>, q: int) -> PStep<JModel> {
    if has_prefix(b.subrange(q, b.len() as int), lit("null")) {
        PStep::Done(JModel::Null, q + 4)
    } else {
        PStep::Fail(lit("expected null"), q)
    }
}

/// Puts a member in front of the members of a successful step.
pub open spec fn pre_members(
    s: Seq<(Seq<u8>, JModel)>,
    r: PStep<Seq<(Seq<u8>, JModel)>>,
) -> PStep<Seq<(Seq<u8>, JModel)>> {
    match r {
        PStep::Done(t, e) => PStep::Done(s + t, e),
        PStep::Fail(m, e) => PStep::Fail(m, e),
        PStep::Abort => PStep::Abort,
    }
}

/// Puts values in front of the values of a successful step.
pub open spec fn pre_elems(s: Seq<JModel>, r: PStep<Seq<JModel>>) -> PStep<Seq<JModel>> {
    match r {
        PStep::Done(t, e) => PStep::Done(s + t, e),
        PStep::Fail(m, e) => PStep::Fail(m, e),
        PStep::Abort => PStep::Abort,
    }
}

/// A value at position `q` (whitespace before it already skipped).
pub open spec fn jval(b: Seq<u8>, q: int) -> PStep<JModel>
    decreases b.len() - q, 1int,
{
    if q < 0 || q >= b.len() {
        PStep::Fail(lit("unexpected end"), q)
    } else {
        let c = b[q];
        if c == 34 {
            match jstring(b, q) {
                PStep::Done(s, e) => PStep::Done(JModel::Str(s), e),
                PStep::Fail(m, e) => PStep::Fail(m, e),
                PStep::Abort => PStep::Abort,
            }
        } else if c == 123 {
            jobj(b, q)
        } else if c == 91 {
            jarr(b, q)
        } else if c == 116 || c == 102 {
            jbool(b, q)
        } else if c == 110 {
            jnull(b, q)
        } else if c == 45 || is_digit(c) {
            PStep::Done(JModel::Number(b.subrange(q, num_end(b, q))), num_end(b, q))
        } else {
            PStep::Fail(unexpected_msg(c), q)
        }
    }
}

/// An object whose `{` is at `q`. Members are kept in key order; a later
/// member replaces an earlier one with the same key.
pub open spec fn jobj(b: Seq<u8>, q: int) -> PStep<JModel>
    decreases b.len() - q, 0int,
{
    if q < 0 || q >= b.len() {
        PStep::Abort
    } else {
        let p1 = skip_ws(b, q + 1);
        proof {
            lemma_skip_ws(b, q + 1);
        }
        if p1 < b.len() && b[p1] == 125 {
            PStep::Done(JModel::Object(seq![]), p1 + 1)
        } else {
            match jmembers_at(b, p1) {
                PStep::Done(ps, e) => PStep::Done(JModel::Object(object_of(ps)), e),
                PStep::Fail(m, e) => PStep::Fail(m, e),
                PStep::Abort => PStep::Abort,
            }
        }
    }
}

/// One member `"key": value` from `p` (whitespace allowed before each
/// part): the key, the value and the position just after the value.
pub open spec fn member_at(b: Seq<u8>, p: int) -> PStep<(Seq<u8>, JModel)>
    decreases b.len() - p, 2int,
{
    if p < 0 || p > b.len() {
        PStep::Abort
    } else {
        let k0 = skip_ws(b, p);
        proof {
            lemma_skip_ws(b, p);
            lemma_jstring_end(b, k0);
        }
        match jstring(b, k0) {
            PStep::Fail(m, e) => PStep::Fail(m, e),
            PStep::Abort => PStep::Abort,
            PStep::Done(key, ke) => {
                let c = skip_ws(b, ke);
                proof {
                    lemma_skip_ws(b, ke);
                }
                if c >= b.len() || b[c] != 58 {
                    PStep::Fail(lit("expected ':'"), c)
                } else {
                    let vq = skip_ws(b, c + 1);
                    proof {
                        lemma_skip_ws(b, c + 1);
                    }
                    match jval(b, vq) {
                        PStep::Fail(m, e) => PStep::Fail(m, e),
                        PStep::Abort => PStep::Abort,
                        PStep::Done(v, ve) => PStep::Done((key, v), ve),
                    }
                }
            },
        }
    }
}

/// The members of an object from `p` (after `{` or a comma) to its `}`,
/// in the order written.
pub open spec fn jmembers_at(b: Seq<u8>, p: int) -> PStep<Seq<(Seq<u8>, JModel)>>
    decreases b.len() - p, 3int,
{
    if p < 0 || p > b.len() {
        PStep::Abort
    } else {
        match member_at(b, p) {
            PStep::Fail(m, e) => PStep::Fail(m, e),
            PStep::Abort => PStep::Abort,
            PStep::Done(kv, ve) => {
                let d = skip_ws(b, ve);
                proof {
                    lemma_skip_ws(b, ve);
                }
                if d >= b.len() {
                    PStep::Fail(lit("unterminated object"), d)
                } else if b[d] == 125 {
                    PStep::Done(seq![kv], d + 1)
                } else if b[d] != 44 {
                    PStep::Fail(lit("expected ',' or '}'"), d)
                } else if ve <= p {
                    PStep::Abort
                } else {
                    pre_members(seq![kv], jmembers_at(b, d + 1))
                }
            },
        }
    }
}

/// An array whose `[` is at `q`.
pub open spec fn jarr(b: Seq<u8>, q: int) -> PStep<JModel>
    decreases b.len() - q, 0int,
{
    if q < 0 || q >= b.len() {
        PStep::Abort
    } else {
        let p1 = skip_ws(b, q + 1);
        proof {
            lemma_skip_ws(b, q + 1);
        }
        if p1 < b.len() && b[p1] == 93 {
            PStep::Done(JModel::Array(seq![]), p1 + 1)
        } else {
            match jelems_at(b, p1) {
                PStep::Done(vs, e) => PStep::Done(JModel::Array(vs), e),
                PStep::Fail(m, e) => PStep::Fail(m, e),
                PStep::Abort => PStep::Abort,
            }
        }
    }
}

/// The values of an array from `p` (after `[` or a comma) to its `]`.
pub open spec fn jelems_at(b: Seq<u8>, p: int) -> PStep<Seq<JModel>>
    decreases b.len() - p, 2int,
{
    if p < 0 || p > b.len() {
        PStep::Abort
    } else {
        let vq = skip_ws(b, p);
        proof {
            lemma_skip_ws(b, p);
        }
        match jval(b, vq) {
            PStep::Fail(m, e) => PStep::Fail(m, e),
            PStep::Abort => PStep::Abort,
            PStep::Done(v, ve) => {
                let d = skip_ws(b, ve);
                proof {
                    lemma_skip_ws(b, ve);
                }
                if d >= b.len() {
                    PStep::Fail(lit("unterminated array"), d)
                } else if b[d] == 93 {
                    PStep::Done(seq![v], d + 1)
                } else if b[d] != 44 {
                    PStep::Fail(lit("expected ',' or ']'"), d)
                } else if ve <= p {
                    PStep::Abort
                } else {
                    pre_elems(seq![v], jelems_at(b, d + 1))
                }
            },
        }
    }
}

/// The value that a text parses to: the first value after leading
/// whitespace (whatever follows it is ignored).
pub open spec fn jparse(b: Seq<u8>) -> PStep<JModel> {
    jval(b, skip_ws(b, 0))
}

pub proof fn lemma_str_body_end(b: Seq<u8>, i: int)
    requires
        0 <= i,
    ensures
        str_body(b, i) matches PStep::Done(_, e) ==> i < e <= b.len(),
    decreases b.len() - i,
{
    if 0 <= i < b.len() && b[i] != 34 {
        if b[i] == 92 {
            let j = i + 1;
            if j < b.len() {
                if b[j] == 117 {
                    if j + 5 <= b.len() {
                        lemma_str_body_end(b, j + 5);
                    }
                } else {
                    lemma_str_body_end(b, j + 1);
                }
            }
        } else {
            lemma_str_body_end(b, i + 1);
        }
    }
}

pub proof fn lemma_jstring_end(b: Seq<u8>, q: int)
    ensures
        jstring(b, q) matches PStep::Done(_, e) ==> q < e <= b.len(),
{
    if 0 <= q < b.len() && b[q] == 34 {
        lemma_str_body_end(b, q + 1);
    }
}

pub proof fn lemma_num_end(b: Seq<u8>, q: int)
    requires
        0 <= q < b.len(),
        b[q] == 45 || is_digit(b[q]),
    ensures
        q < num_end(b, q) <= b.len(),
{
    let i1 = if b[q] == 45 {
        q + 1
    } else {
        q
    };
    lemma_digit_run(b, i1 as nat);
    let i2 = digit_run(b, i1 as nat) as int;
    if i2 < b.len() && b[i2] == 46 {
        lemma_digit_run(b, (i2 + 1) as nat);
    }
    let i3 = if i2 < b.len() && b[i2] == 46 {
        digit_run(b, (i2 + 1) as nat) as int
    } else {
        i2
    };
    if i3 < b.len() && (b[i3] == 101 || b[i3] == 69) {
        let j = i3 + 1;
        let j2 = if j < b.len() && (b[j] == 43 || b[j] == 45) {
            j + 1
        } else {
            j
        };
        lemma_digit_run(b, j2 as nat);
    }
}

pub proof fn lemma_jval_end(b: Seq<u8>, q: int)
    ensures
        jval(b, q) matches PStep::Done(_, e) ==> q < e <= b.len(),
    decreases b.len() - q, 1int,
{
    if 0 <= q < b.len() {
        let c = b[q];
        if c == 34 {
            lemma_jstring_end(b, q);
        } else if c == 123 {
            lemma_jobj_end(b, q);
        } else if c == 91 {
            lemma_jarr_end(b, q);
        } else if c == 116 || c == 102 {
            reveal_strlit("true");
            reveal_strlit("false");
            assert(lit("true").len() == 4);
            assert(lit("false").len() == 5);
        } else if c == 110 {
            reveal_strlit("null");
            assert(lit("null").len() == 4);
        } else if c == 45 || is_digit(c) {
            lemma_num_end(b, q);
        }
    }
}

pub proof fn lemma_jobj_end(b: Seq<u8>, q: int)
    ensures
        jobj(b, q) matches PStep::Done(_, e) ==> q < e <= b.len(),
    decreases b.len() - q, 0int,
{
    if 0 <= q < b.len() {
        lemma_skip_ws(b, q + 1);
        lemma_jmembers_end(b, skip_ws(b, q + 1));
    }
}

pub proof fn lemma_jarr_end(b: Seq<u8>, q: int)
    ensures
        jarr(b, q) matches PStep::Done(_, e) ==> q < e <= b.len(),
    decreases b.len() - q, 0int,
{
    if 0 <= q < b.len() {
        lemma_skip_ws(b, q + 1);
        lemma_jelems_end(b, skip_ws(b, q + 1));
    }
}

pub proof fn lemma_member_end(b: Seq<u8>, p: int)
    ensures
        member_at(b, p) matches PStep::Done(_, e) ==> p < e <= b.len(),
    decreases b.len() - p, 2int,
{
    if 0 <= p <= b.len() {
        let k0 = skip_ws(b, p);
        lemma_skip_ws(b, p);
        lemma_jstring_end(b, k0);
        if let PStep::Done(key, ke) = jstring(b, k0) {
            let c = skip_ws(b, ke);
            lemma_skip_ws(b, ke);
            if c < b.len() && b[c] == 58 {
                let vq = skip_ws(b, c + 1);
                lemma_skip_ws(b, c + 1);
                lemma_jval_end(b, vq);
            }
        }
    }
}

pub proof fn lemma_jmembers_end(b: Seq<u8>, p: int)
    ensures
        jmembers_at(b, p) matches PStep::Done(_, e) ==> p < e <= b.len(),
    decreases b.len() - p, 3int,
{
    if 0 <= p <= b.len() {
        lemma_member_end(b, p);
        if let PStep::Done(kv, ve) = member_at(b, p) {
            let d = skip_ws(b, ve);
            lemma_skip_ws(b, ve);
            if d < b.len() && b[d] == 44 && ve > p {
                lemma_jmembers_end(b, d + 1);
            }
        }
    }
}

pub proof fn lemma_jelems_end(b: Seq<u8>, p: int)
    ensures
        jelems_at(b, p) matches PStep::Done(_, e) ==> p < e <= b.len(),
    decreases b.len() - p, 2int,
{
    if 0 <= p <= b.len() {
        let vq = skip_ws(b, p);
        lemma_skip_ws(b, p);
        lemma_jval_end(b, vq);
        if let PStep::Done(v, ve) = jval(b, vq) {
            let d = skip_ws(b, ve);
            lemma_skip_ws(b, ve);
            if d < b.len() && b[d] == 44 && ve > p {
                lemma_jelems_end(b, d + 1);
            }
        }
    }
}


/// A syntax error found while parsing: its message and byte position.
#[derive(Debug)]
pub struct JsonError {
    pub msg: Vec<u8>,
    pub pos: usize,
}

/// Why a parsing step stopped early.
enum Stop {
    Fail(JsonError),
    /// Parsing would read past the end of the input.
    Abort,
}

spec fn stop_is<T>(st: Stop, r: PStep<T>) -> bool {
    match st {
        Stop::Fail(e) => r == PStep::<T>::Fail(e.msg@, e.pos as int),
        Stop::Abort => r is Abort,
    }
}

fn fail_at(msg: Vec<u8>, pos: usize) -> (r: Stop)
    ensures
        r == Stop::Fail(JsonError { msg, pos }),
{
    Stop::Fail(JsonError { msg, pos })
}

proof fn lemma_pre_bytes(a: Seq<u8>, p: Seq<u8>, r: PStep<Seq<u8>>)
    ensures
        pre_bytes(a, pre_bytes(p, r)) == pre_bytes(a + p, r),
        pre_bytes(a, PStep::Done(seq![], 0)) matches PStep::Done(t, _) && t =~= a,
{
    if let PStep::Done(t, e) = r {
        assert(a + (p + t) =~= (a + p) + t);
    }
    assert(a + seq![] =~= a);
}

fn skip_ws_at(b: &[u8], p: usize) -> (r: usize)
    requires
        p <= b@.len(),
    ensures
        r == skip_ws(b@, p as int),
        p <= r <= b@.len(),
{
    let mut i = p;
    while i < b.len() && (b[i] == 32 || b[i] == 9 || b[i] == 10 || b[i] == 13)
        invariant
            p <= i <= b@.len(),
            skip_ws(b@, p as int) == skip_ws(b@, i as int),
        decreases b.len() - i,
    {
        i = i + 1;
    }
    i
}

fn digits_from(b: &[u8], p: usize) -> (r: usize)
    requires
        p <= b@.len(),
    ensures
        r == digit_run(b@, p as nat),
        p <= r <= b@.len(),
{
    let mut i = p;
    while i < b.len() && 48 <= b[i] && b[i] <= 57
        invariant
            p <= i <= b@.len(),
            digit_run(b@, p as nat) == digit_run(b@, i as nat),
        decreases b.len() - i,
    {
        i = i + 1;
    }
    i
}

fn num_end_at(b: &[u8], p: usize) -> (r: usize)
    requires
        p < b@.len(),
    ensures
        r == num_end(b@, p as int),
        r <= b@.len(),
{
    let i1 = if b[p] == 45 {
        p + 1
    } else {
        p
    };
    let i2 = digits_from(b, i1);
    let i3 = if i2 < b.len() && b[i2] == 46 {
        digits_from(b, i2 + 1)
    } else {
        i2
    };
    if i3 < b.len() && (b[i3] == 101 || b[i3] == 69) {
        let j = i3 + 1;
        let j2 = if j < b.len() && (b[j] == 43 || b[j] == 45) {
            j + 1
        } else {
            j
        };
        digits_from(b, j2)
    } else {
        i3
    }
}

/// Appends the UTF-8 encoding of a code point below 0x10000.
fn push_code(out: &mut Vec<u8>, c: u32)
    requires
        c < 0x10000,
    ensures
        final(out)@ == old(out)@ + utf8_of(c as int),
{
    if c < 0x80 {
        out.push(c as u8);
    } else if c < 0x800 {
        out.push((0xC0 + c / 64) as u8);
        out.push((0x80 + c % 64) as u8);
    } else {
        out.push((0xE0 + c / 4096) as u8);
        out.push((0x80 + (c / 64) % 64) as u8);
        out.push((0x80 + c % 64) as u8);
    }
    assert(final(out)@ =~= old(out)@ + utf8_of(c as int));
}

fn hex_digit(c: u8) -> (r: Option<u32>)
    ensures
        r is Some <==> is_hex_digit(c),
        r matches Some(v) ==> v == hex_digit_value(c) && v < 16,
{
    if 48 <= c && c <= 57 {
        Some((c - 48) as u32)
    } else if 65 <= c && c <= 70 {
        Some((c - 55) as u32)
    } else if 97 <= c && c <= 102 {
        Some((c - 87) as u32)
    } else {
        None
    }
}

/// The four bytes after `\u` as a number, when they read as one.
fn hex4(h: &[u8]) -> (r: Option<u32>)
    requires
        h@.len() == 4,
    ensures
        r is Some <==> hex4_ok(h@),
        r matches Some(v) ==> v == hex4_val(h@) && v < 0x10000,
{
    let first: u32 = if h[0] == 43 {
        0
    } else {
        match hex_digit(h[0]) {
            Some(v) => v,
            None => return None,
        }
    };
    let d1 = match hex_digit(h[1]) {
        Some(v) => v,
        None => return None,
    };
    let d2 = match hex_digit(h[2]) {
        Some(v) => v,
        None => return None,
    };
    let d3 = match hex_digit(h[3]) {
        Some(v) => v,
        None => return None,
    };
    Some(first * 4096 + d1 * 256 + d2 * 16 + d3)
}

#[verifier::rlimit(60)]
fn parse_str_body(b: &[u8], i0: usize) -> (r: Result<(Vec<u8>, usize), Stop>)
    requires
        i0 <= b@.len(),
    ensures
        match r {
            Ok((s, e)) => str_body(b@, i0 as int) == PStep::Done(s@, e as int),
            Err(st) => stop_is(st, str_body(b@, i0 as int)),
        },
{
    let mut out: Vec<u8> = Vec::new();
    let mut i = i0;
    proof {
        lemma_pre_bytes(seq![], seq![], str_body(b@, i0 as int));
        assert(pre_bytes(out@, str_body(b@, i0 as int)) == str_body(b@, i0 as int)) by {
            if let PStep::Done(t, e) = str_body(b@, i0 as int) {
                assert(out@ + t =~= t);
            }
        }
    }
    while i < b.len()
        invariant
            i0 <= i <= b@.len(),
            str_body(b@, i0 as int) == pre_bytes(out@, str_body(b@, i as int)),
        decreases b.len() - i,
    {
        let c = b[i];
        if c == 34 {
            proof {
                assert(out@ + seq![] =~= out@);
            }
            return Ok((out, i + 1));
        }
        if c == 92 {
            let j = i + 1;
            if j >= b.len() {
                proof { reveal_strlit("unterminated escape"); }
                return Err(fail_at(ascii_bytes("unterminated escape"), j));
            }
            let e = b[j];
            if e == 117 {
                let k = j + 1;
                if b.len() - k < 4 {
                    proof { reveal_strlit("short unicode escape"); }
                    return Err(fail_at(ascii_bytes("short unicode escape"), k));
                }
                let h = vstd::slice::slice_subrange(b, k, k + 4);
                if !is_utf8(h) {
                    proof { reveal_strlit("bad unicode"); }
                    return Err(fail_at(ascii_bytes("bad unicode"), k));
                }
                let code = match hex4(h) {
                    Some(v) => v,
                    None => {
                        proof { reveal_strlit("bad hex"); }
                        return Err(fail_at(ascii_bytes("bad hex"), k));
                    },
                };
                let ghost o0 = out@;
                if !(0xD800 <= code && code <= 0xDFFF) {
                    push_code(&mut out, code);
                }
                proof {
                    assert(out@ =~= o0 + unicode_piece(code as int));
                    lemma_pre_bytes(o0, unicode_piece(code as int), str_body(b@, k + 4));
                }
                i = k + 4;
            } else {
                let ghost o0 = out@;
                if e == 110 {
                    out.push(10);
                } else if e == 114 {
                    out.push(13);
                } else if e == 116 {
                    out.push(9);
                } else {
                    push_code(&mut out, e as u32);
                }
                proof {
                    assert(out@ =~= o0 + escape_piece(e));
                    lemma_pre_bytes(o0, escape_piece(e), str_body(b@, j + 1));
                }
                i = j + 1;
            }
        } else {
            let ghost o0 = out@;
            push_code(&mut out, c as u32);
            proof {
                lemma_pre_bytes(o0, utf8_of(c as int), str_body(b@, i + 1));
            }
            i = i + 1;
        }
    }
    proof { reveal_strlit("unterminated string"); }
    Err(fail_at(ascii_bytes("unterminated string"), i))
}

fn parse_str(b: &[u8], q: usize) -> (r: Result<(Vec<u8>, usize), Stop>)
    requires
        q <= b@.len(),
    ensures
        match r {
            Ok((s, e)) => jstring(b@, q as int) == PStep::Done(s@, e as int),
            Err(st) => stop_is(st, jstring(b@, q as int)),
        },
{
    if q >= b.len() {
        return Err(Stop::Abort);
    }
    if b[q] != 34 {
        proof { reveal_strlit("expected '\"'"); }
        return Err(fail_at(ascii_bytes("expected '\"'"), q));
    }
    parse_str_body(b, q + 1)
}

fn parse_val(b: &[u8], q: usize) -> (r: Result<(JsonValue, usize), Stop>)
    requires
        q <= b@.len(),
    ensures
        match r {
            Ok((v, e)) => jval(b@, q as int) == PStep::Done(v@, e as int),
            Err(st) => stop_is(st, jval(b@, q as int)),
        },
    decreases b@.len() - q, 1int,
{
    if q >= b.len() {
        proof { reveal_strlit("unexpected end"); }
        return Err(fail_at(ascii_bytes("unexpected end"), q));
    }
    let c = b[q];
    if c == 34 {
        match parse_str(b, q) {
            Ok((s, e)) => Ok((JsonValue::Str(s), e)),
            Err(st) => Err(st),
        }
    } else if c == 123 {
        parse_obj(b, q)
    } else if c == 91 {
        parse_arr(b, q)
    } else if c == 116 || c == 102 {
        let rest = vstd::slice::slice_subrange(b, q, b.len());
        proof { reveal_strlit("true"); reveal_strlit("false"); reveal_strlit("expected bool"); }
        if starts_with(rest, ascii_bytes("true").as_slice()) {
            Ok((JsonValue::Bool(true), q + 4))
        } else if starts_with(rest, ascii_bytes("false").as_slice()) {
            Ok((JsonValue::Bool(false), q + 5))
        } else {
            Err(fail_at(ascii_bytes("expected bool"), q))
        }
    } else if c == 110 {
        let rest = vstd::slice::slice_subrange(b, q, b.len());
        proof { reveal_strlit("null"); reveal_strlit("expected null"); }
        if starts_with(rest, ascii_bytes("null").as_slice()) {
            Ok((JsonValue::Null, q + 4))
        } else {
            Err(fail_at(ascii_bytes("expected null"), q))
        }
    } else if c == 45 || (48 <= c && c <= 57) {
        let e = num_end_at(b, q);
        proof {
            lemma_num_end(b@, q as int);
        }
        Ok((JsonValue::Number(to_vec(vstd::slice::slice_subrange(b, q, e))), e))
    } else {
        proof { reveal_strlit("unexpected char '"); reveal_strlit("'"); }
        let mut m = ascii_bytes("unexpected char '");
        push_code(&mut m, c as u32);
        push_all(&mut m, ascii_bytes("'").as_slice());
        Err(fail_at(m, q))
    }
}

fn parse_member(b: &[u8], p: usize) -> (r: Result<(Vec<u8>, JsonValue, usize), Stop>)
    requires
        p <= b@.len(),
    ensures
        match r {
            Ok((k, v, e)) => member_at(b@, p as int) == PStep::Done((k@, v@), e as int),
            Err(st) => stop_is(st, member_at(b@, p as int)),
        },
    decreases b@.len() - p, 2int,
{
    let k0 = skip_ws_at(b, p);
    proof {
        lemma_jstring_end(b@, k0 as int);
    }
    let (key, ke) = match parse_str(b, k0) {
        Ok(x) => x,
        Err(st) => return Err(st),
    };
    let c = skip_ws_at(b, ke);
    if c >= b.len() || b[c] != 58 {
        proof { reveal_strlit("expected ':'"); }
        return Err(fail_at(ascii_bytes("expected ':'"), c));
    }
    let vq = skip_ws_at(b, c + 1);
    match parse_val(b, vq) {
        Ok((v, ve)) => Ok((key, v, ve)),
        Err(st) => Err(st),
    }
}

#[verifier::rlimit(80)]
#[verifier::spinoff_prover]
fn parse_obj(b: &[u8], q: usize) -> (r: Result<(JsonValue, usize), Stop>)
    requires
        q < b@.len(),
    ensures
        match r {
            Ok((v, e)) => jobj(b@, q as int) == PStep::Done(v@, e as int),
            Err(st) => stop_is(st, jobj(b@, q as int)),
        },
    decreases b@.len() - q, 0int,
{
    let n = b.len();
    let mut p = skip_ws_at(b, q + 1);
    if p < b.len() && b[p] == 125 {
        let empty: Vec<(Vec<u8>, JsonValue)> = Vec::new();
        assert(jentries(empty@) =~= seq![]);
        return Ok((JsonValue::Object(empty), p + 1));
    }
    let ghost p1: int = p as int;
    let ghost mut acc: Seq<(Seq<u8>, JModel)> = seq![];
    let mut members: Vec<(Vec<u8>, JsonValue)> = Vec::new();
    assert(pre_members(acc, jmembers_at(b@, p as int)) == jmembers_at(b@, p as int)) by {
        if let PStep::Done(t, e) = jmembers_at(b@, p as int) {
            assert(acc + t =~= t);
        }
    }
    loop
        invariant
            q < p1 <= p <= b@.len(),
            p1 == skip_ws(b@, q + 1),
            !(p1 < b@.len() && b@[p1] == 125),
            jmembers_at(b@, p1) == pre_members(acc, jmembers_at(b@, p as int)),
            jentries(members@) == object_of(acc),
        decreases b@.len() - p,
    {
        proof {
            lemma_member_end(b@, p as int);
        }
        let (key, v, ve) = match parse_member(b, p) {
            Ok(x) => x,
            Err(st) => return Err(st),
        };
        let d = skip_ws_at(b, ve);
        if d >= b.len() {
            proof { reveal_strlit("unterminated object"); }
            return Err(fail_at(ascii_bytes("unterminated object"), d));
        }
        let ghost kv = key@;
        let ghost vv = v@;
        if b[d] != 125 && b[d] != 44 {
            proof { reveal_strlit("expected ',' or '}'"); }
            return Err(fail_at(ascii_bytes("expected ',' or '}'"), d));
        }
        object_insert(&mut members, key, v);
        proof {
            assert(acc.push((kv, vv)).drop_last() =~= acc);
        }
        if b[d] == 125 {
            proof {
                assert(acc + seq![(kv, vv)] =~= acc.push((kv, vv)));
            }
            return Ok((JsonValue::Object(members), d + 1));
        }
        proof {
            let r = jmembers_at(b@, d + 1);
            assert(pre_members(acc, pre_members(seq![(kv, vv)], r)) == pre_members(acc.push((kv, vv)), r)) by {
                if let PStep::Done(t, e) = r {
                    assert(acc + (seq![(kv, vv)] + t) =~= acc.push((kv, vv)) + t);
                }
            }
            acc = acc.push((kv, vv));
        }
        p = d + 1;
    }
}

fn parse_arr(b: &[u8], q: usize) -> (r: Result<(JsonValue, usize), Stop>)
    requires
        q < b@.len(),
    ensures
        match r {
            Ok((v, e)) => jarr(b@, q as int) == PStep::Done(v@, e as int),
            Err(st) => stop_is(st, jarr(b@, q as int)),
        },
    decreases b@.len() - q, 0int,
{
    let n = b.len();
    let mut p = skip_ws_at(b, q + 1);
    if p < b.len() && b[p] == 93 {
        let empty: Vec<JsonValue> = Vec::new();
        assert(jviews(empty@) =~= seq![]);
        return Ok((JsonValue::Array(empty), p + 1));
    }
    let ghost p1: int = p as int;
    let mut out: Vec<JsonValue> = Vec::new();
    assert(pre_elems(jviews(out@), jelems_at(b@, p as int)) == jelems_at(b@, p as int)) by {
        if let PStep::Done(t, e) = jelems_at(b@, p as int) {
            assert(jviews(out@) + t =~= t);
        }
    }
    loop
        invariant
            q < p1 <= p <= b@.len(),
            p1 == skip_ws(b@, q + 1),
            !(p1 < b@.len() && b@[p1] == 93),
            jelems_at(b@, p1) == pre_elems(jviews(out@), jelems_at(b@, p as int)),
        decreases b@.len() - p,
    {
        let vq = skip_ws_at(b, p);
        proof {
            lemma_jval_end(b@, vq as int);
        }
        let (v, ve) = match parse_val(b, vq) {
            Ok(x) => x,
            Err(st) => return Err(st),
        };
        let d = skip_ws_at(b, ve);
        if d >= b.len() {
            proof { reveal_strlit("unterminated array"); }
            return Err(fail_at(ascii_bytes("unterminated array"), d));
        }
        let ghost acc = jviews(out@);
        let ghost o0 = out@;
        let ghost vv = v@;
        out.push(v);
        proof {
            assert(out@.drop_last() =~= o0);
            assert(jviews(out@) == acc.push(vv));
        }
        if b[d] == 93 {
            proof {
                assert(acc + seq![vv] =~= acc.push(vv));
            }
            return Ok((JsonValue::Array(out), d + 1));
        }
        if b[d] != 44 {
            proof { reveal_strlit("expected ',' or ']'"); }
            return Err(fail_at(ascii_bytes("expected ',' or ']'"), d));
        }
        proof {
            let r = jelems_at(b@, d + 1);
            assert(pre_elems(acc, pre_elems(seq![vv], r)) == pre_elems(acc.push(vv), r)) by {
                if let PStep::Done(t, e) = r {
                    assert(acc + (seq![vv] + t) =~= acc.push(vv) + t);
                }
            }
        }
        p = d + 1;
    }
}

/// Parses JSON text. `None` where parsing would read past the end of the
/// input: the text ends, after whitespace, right after the `{` or a comma
/// of an object, where a key is due.
pub fn parse_checked(input: &[u8]) -> (r: Option<Result<JsonValue, JsonError>>)
    ensures
        match r {
            None => jparse(input@) is Abort,
            Some(Ok(v)) => jparse(input@) matches PStep::Done(m, _) && m == v@,
            Some(Err(e)) => jparse(input@) == PStep::<JModel>::Fail(e.msg@, e.pos as int),
        },
{
    let p = skip_ws_at(input, 0);
    match parse_val(input, p) {
        Ok((v, _)) => Some(Ok(v)),
        Err(Stop::Fail(e)) => Some(Err(e)),
        Err(Stop::Abort) => None,
    }
}

/// Parses JSON text: the first value after leading whitespace.
pub fn parse(input: &[u8]) -> (r: Result<JsonValue, JsonError>)
    requires
        !(jparse(input@) is Abort),
    ensures
        match r {
            Ok(v) => jparse(input@) matches PStep::Done(m, _) && m == v@,
            Err(e) => jparse(input@) == PStep::<JModel>::Fail(e.msg@, e.pos as int),
        },
{
    match parse_checked(input) {
        Some(r) => r,
        None => Err(JsonError { msg: Vec::new(), pos: 0 }),
    }
}


// ---------------------------------------------------------------------
// Reading back what was written
// ---------------------------------------------------------------------

/// Bytes below 128.
pub open spec fn ascii(s: Seq<u8>) -> bool {
    forall|i: int| 0 <= i < s.len() ==> s[i] < 128
}

/// A whole number literal as the parser reads one.
pub open spec fn num_lit(n: Seq<u8>) -> bool {
    n.len() > 0 && (n[0] == 45 || is_digit(n[0])) && num_end(n, 0) == n.len()
}

/// Object keys in strictly increasing byte order.
pub open spec fn keys_sorted(m: Seq<(Seq<u8>, JModel)>) -> bool {
    forall|i: int, j: int| 0 <= i < j < m.len() ==> bytes_lt(#[trigger] m[i].0, #[trigger] m[j].0)
}

/// Values whose JSON text reads back as the same value: strings and keys
/// of ASCII bytes, numbers that are number literals, and object keys in
/// strictly increasing order.
pub open spec fn canonical(v: JModel) -> bool
    decreases v, 0nat,
{
    match v {
        JModel::Null => true,
        JModel::Bool(_) => true,
        JModel::Number(n) => num_lit(n),
        JModel::Str(s) => ascii(s),
        JModel::Array(a) => canon_all(a),
        JModel::Object(m) => keys_sorted(m) && canon_members(m),
    }
}

pub open spec fn canon_all(a: Seq<JModel>) -> bool
    decreases a, 1nat,
{
    if a.len() == 0 {
        true
    } else {
        canon_all(a.drop_last()) && canonical(a.last())
    }
}

pub open spec fn canon_members(m: Seq<(Seq<u8>, JModel)>) -> bool
    decreases m, 1nat,
{
    if m.len() == 0 {
        true
    } else {
        canon_members(m.drop_last()) && ascii(m.last().0) && canonical(m.last().1)
    }
}

proof fn lemma_canon_all(a: Seq<JModel>)
    ensures
        canon_all(a) <==> forall|i: int| 0 <= i < a.len() ==> canonical(#[trigger] a[i]),
    decreases a.len(),
{
    if a.len() > 0 {
        lemma_canon_all(a.drop_last());
        if canon_all(a) {
            assert forall|i: int| 0 <= i < a.len() implies canonical(#[trigger] a[i]) by {
                if i < a.len() - 1 {
                    assert(a.drop_last()[i] == a[i]);
                }
            }
        }
        if forall|i: int| 0 <= i < a.len() ==> canonical(#[trigger] a[i]) {
            assert forall|i: int| 0 <= i < a.drop_last().len() implies canonical(
                #[trigger] a.drop_last()[i],
            ) by {
                assert(a.drop_last()[i] == a[i]);
            }
            assert(canonical(a[a.len() - 1]));
        }
    }
}

proof fn lemma_canon_members(m: Seq<(Seq<u8>, JModel)>)
    requires
        canon_members(m),
    ensures
        forall|i: int| 0 <= i < m.len() ==> ascii(#[trigger] m[i].0) && canonical(m[i].1),
    decreases m.len(),
{
    if m.len() > 0 {
        let init = m.drop_last();
        lemma_canon_members(init);
        assert forall|i: int| 0 <= i < m.len() implies ascii(#[trigger] m[i].0) && canonical(
            m[i].1,
        ) by {
            if i < m.len() - 1 {
                assert(init[i] == m[i]);
                assert(ascii(init[i].0) && canonical(init[i].1));
            } else {
                assert(m.last() == m[i]);
            }
        }
    }
}

proof fn lemma_bytes_lt_irrefl(a: Seq<u8>)
    ensures
        !bytes_lt(a, a),
    decreases a.len(),
{
    if a.len() > 0 {
        lemma_bytes_lt_irrefl(a.drop_first());
    }
}

proof fn lemma_bytes_lt_asym(a: Seq<u8>, c: Seq<u8>)
    requires
        bytes_lt(a, c),
    ensures
        !bytes_lt(c, a),
    decreases a.len(),
{
    if a.len() > 0 && c.len() > 0 && a[0] == c[0] {
        lemma_bytes_lt_asym(a.drop_first(), c.drop_first());
    }
}

proof fn lemma_jinsert_last(s: Seq<(Seq<u8>, JModel)>, k: Seq<u8>, v: JModel)
    requires
        forall|i: int| 0 <= i < s.len() ==> bytes_lt(#[trigger] s[i].0, k),
    ensures
        jinsert(s, k, v) == s.push((k, v)),
    decreases s.len(),
{
    if s.len() > 0 {
        assert(bytes_lt(s[0].0, k));
        lemma_bytes_lt_irrefl(k);
        lemma_bytes_lt_asym(s[0].0, k);
        assert forall|i: int| 0 <= i < s.drop_first().len() implies bytes_lt(
            #[trigger] s.drop_first()[i].0,
            k,
        ) by {
            assert(s.drop_first()[i] == s[i + 1]);
        }
        lemma_jinsert_last(s.drop_first(), k, v);
        assert(seq![s[0]] + s.drop_first().push((k, v)) =~= s.push((k, v)));
    }
}

/// Building an object from members whose keys are already in strictly
/// increasing order keeps them as they are.
pub proof fn lemma_object_of_sorted(m: Seq<(Seq<u8>, JModel)>)
    requires
        keys_sorted(m),
    ensures
        object_of(m) == m,
    decreases m.len(),
{
    if m.len() > 0 {
        let init = m.drop_last();
        assert(keys_sorted(init)) by {
            assert forall|i: int, j: int| 0 <= i < j < init.len() implies bytes_lt(
                #[trigger] init[i].0,
                #[trigger] init[j].0,
            ) by {
                assert(init[i] == m[i] && init[j] == m[j]);
            }
        }
        lemma_object_of_sorted(init);
        assert forall|i: int| 0 <= i < init.len() implies bytes_lt(
            #[trigger] init[i].0,
            m.last().0,
        ) by {
            assert(init[i] == m[i]);
            assert(m.last() == m[m.len() - 1]);
        }
        lemma_jinsert_last(init, m.last().0, m.last().1);
        assert(init.push(m.last()) =~= m);
    }
}

proof fn lemma_escape_front(s: Seq<u8>)
    requires
        s.len() > 0,
    ensures
        escape(s) == esc_byte(s[0]) + escape(s.drop_first()),
    decreases s.len(),
{
    if s.len() == 1 {
        assert(s.drop_last().len() == 0);
        assert(s.drop_first().len() == 0);
        assert(esc_byte(s[0]) + escape(s.drop_first()) =~= esc_byte(s[0]));
        assert(escape(s.drop_last()) + esc_byte(s.last()) =~= esc_byte(s[0]));
    } else {
        lemma_escape_front(s.drop_last());
        assert(s.drop_last().drop_first() =~= s.drop_first().drop_last());
        assert(s.drop_first().last() == s.last());
        assert(escape(s) =~= esc_byte(s[0]) + escape(s.drop_first()));
    }
}

proof fn lemma_jlist_front(a: Seq<JModel>)
    requires
        a.len() > 0,
    ensures
        a.len() == 1 ==> jlist(a) == jtext(a[0]),
        a.len() > 1 ==> jlist(a) == jtext(a[0]) + seq![44u8] + jlist(a.drop_first()),
    decreases a.len(),
{
    if a.len() > 2 {
        let init = a.drop_last();
        let tl = a.drop_first();
        lemma_jlist_front(init);
        assert(init.drop_first() =~= tl.drop_last());
        assert(tl.last() == a.last());
        assert(init[0] == a[0]);
        assert(jlist(a) == jlist(init) + seq![44u8] + jtext(a.last()));
        assert(jlist(init) == jtext(a[0]) + seq![44u8] + jlist(init.drop_first()));
        assert(jlist(tl) == jlist(tl.drop_last()) + seq![44u8] + jtext(tl.last()));
        assert(jlist(a) =~= jtext(a[0]) + seq![44u8] + jlist(tl));
    } else if a.len() == 2 {
        let init = a.drop_last();
        let tl = a.drop_first();
        assert(init.len() == 1 && init[0] == a[0]);
        assert(tl.len() == 1 && tl[0] == a[1]);
        assert(jlist(a) == jlist(init) + seq![44u8] + jtext(a.last()));
        assert(jlist(a) =~= jtext(a[0]) + seq![44u8] + jlist(tl));
    }
}

proof fn lemma_jmembers_front(m: Seq<(Seq<u8>, JModel)>)
    requires
        m.len() > 0,
    ensures
        m.len() == 1 ==> jmembers(m) == jstr(m[0].0) + seq![58u8] + jtext(m[0].1),
        m.len() > 1 ==> jmembers(m) == jstr(m[0].0) + seq![58u8] + jtext(m[0].1) + seq![44u8]
            + jmembers(m.drop_first()),
    decreases m.len(),
{
    if m.len() > 2 {
        let init = m.drop_last();
        let tl = m.drop_first();
        lemma_jmembers_front(init);
        assert(init.drop_first() =~= tl.drop_last());
        assert(tl.last() == m.last());
        assert(init[0] == m[0]);
        assert(jmembers(m) == jmembers(init) + seq![44u8] + jstr(m.last().0) + seq![58u8] + jtext(
            m.last().1,
        ));
        assert(jmembers(init) == jstr(m[0].0) + seq![58u8] + jtext(m[0].1) + seq![44u8]
            + jmembers(init.drop_first()));
        assert(jmembers(tl) == jmembers(tl.drop_last()) + seq![44u8] + jstr(tl.last().0) + seq![
            58u8,
        ] + jtext(tl.last().1));
        assert(jmembers(m) =~= jstr(m[0].0) + seq![58u8] + jtext(m[0].1) + seq![44u8] + jmembers(
            tl,
        ));
    } else if m.len() == 2 {
        let init = m.drop_last();
        let tl = m.drop_first();
        assert(init.len() == 1 && init[0] == m[0]);
        assert(tl.len() == 1 && tl[0] == m[1]);
        assert(jmembers(m) == jmembers(init) + seq![44u8] + jstr(m.last().0) + seq![58u8] + jtext(
            m.last().1,
        ));
        assert(jmembers(m) =~= jstr(m[0].0) + seq![58u8] + jtext(m[0].1) + seq![44u8] + jmembers(
            tl,
        ));
    }
}

/// Reading a string's escaped bytes followed by a quote gives the string.
proof fn lemma_read_string(s: Seq<u8>, b: Seq<u8>, i: int)
    requires
        ascii(s),
        0 <= i,
        i + escape(s).len() < b.len(),
        b.subrange(i, i + escape(s).len()) == escape(s),
        b[i + escape(s).len()] == 34,
    ensures
        str_body(b, i) == PStep::Done(s, i + escape(s).len() + 1),
    decreases s.len(),
{
    if s.len() == 0 {
        assert(escape(s).len() == 0);
        assert(s =~= seq![]);
    } else {
        lemma_escape_front(s);
        let e0 = esc_byte(s[0]);
        let rest = s.drop_first();
        assert(b.subrange(i, i + e0.len()) =~= e0) by {
            assert forall|k: int| 0 <= k < e0.len() implies b[i + k] == e0[k] by {
                assert(b.subrange(i, i + escape(s).len())[k] == escape(s)[k]);
            }
        }
        assert(b.subrange(i + e0.len(), i + e0.len() + escape(rest).len()) =~= escape(rest)) by {
            assert forall|k: int| 0 <= k < escape(rest).len() implies b[i + e0.len() + k]
                == escape(rest)[k] by {
                assert(b.subrange(i, i + escape(s).len())[e0.len() + k] == escape(s)[e0.len() + k]);
            }
        }
        assert(ascii(rest)) by {
            assert forall|k: int| 0 <= k < rest.len() implies rest[k] < 128 by {
                assert(rest[k] == s[k + 1]);
            }
        }
        assert(s[0] < 128);
        lemma_read_string(rest, b, i + e0.len());
        assert(b[i] == e0[0]);
        if e0.len() == 2 {
            assert(b[i + 1] == e0[1]);
        }
        assert(seq![s[0]] + rest =~= s);
    }
}

/// Where a number literal may end: the end of the input or a `,`, `]`
/// or `}`.
pub open spec fn delim(b: Seq<u8>, k: int) -> bool {
    k == b.len() || (0 <= k < b.len() && (b[k] == 44 || b[k] == 93 || b[k] == 125))
}

proof fn lemma_digit_run_window(n: Seq<u8>, b: Seq<u8>, p: int, i: int)
    requires
        0 <= p,
        0 <= i <= n.len(),
        p + n.len() <= b.len(),
        b.subrange(p, p + n.len()) == n,
        delim(b, p + n.len()),
    ensures
        digit_run(b, (p + i) as nat) == p + digit_run(n, i as nat),
    decreases n.len() - i,
{
    if i < n.len() {
        assert(b[p + i] == n[i]) by {
            assert(b.subrange(p, p + n.len())[i] == n[i]);
        }
        if is_digit(n[i]) {
            lemma_digit_run_window(n, b, p, i + 1);
        }
    }
}

proof fn lemma_num_window(n: Seq<u8>, b: Seq<u8>, p: int)
    requires
        num_lit(n),
        0 <= p,
        p + n.len() <= b.len(),
        b.subrange(p, p + n.len()) == n,
        delim(b, p + n.len()),
    ensures
        num_end(b, p) == p + n.len(),
        b[p] == n[0],
{
    let len = n.len() as int;
    assert forall|k: int| 0 <= k < len implies b[p + k] == n[k] by {
        assert(b.subrange(p, p + len)[k] == n[k]);
    }
    let i1 = if n[0] == 45 {
        1int
    } else {
        0int
    };
    lemma_digit_run_window(n, b, p, i1);
    lemma_digit_run(n, i1 as nat);
    let i2 = digit_run(n, i1 as nat) as int;
    if i2 < len && n[i2] == 46 {
        lemma_digit_run_window(n, b, p, i2 + 1);
        lemma_digit_run(n, (i2 + 1) as nat);
    }
    let i3 = if i2 < len && n[i2] == 46 {
        digit_run(n, (i2 + 1) as nat) as int
    } else {
        i2
    };
    if i3 < len && (n[i3] == 101 || n[i3] == 69) {
        let j = i3 + 1;
        let j2 = if j < len && (n[j] == 43 || n[j] == 45) {
            j + 1
        } else {
            j
        };
        lemma_digit_run_window(n, b, p, j2);
    }
}

proof fn lemma_window_split(b: Seq<u8>, p: int, x: Seq<u8>, y: Seq<u8>)
    requires
        0 <= p,
        p + x.len() + y.len() <= b.len(),
        b.subrange(p, p + x.len() + y.len()) == x + y,
    ensures
        b.subrange(p, p + x.len()) == x,
        b.subrange(p + x.len(), p + x.len() + y.len()) == y,
{
    let w = b.subrange(p, p + x.len() + y.len());
    assert forall|k: int| 0 <= k < x.len() implies b[p + k] == x[k] by {
        assert(w[k] == b[p + k]);
        assert((x + y)[k] == x[k]);
    }
    assert forall|k: int| 0 <= k < y.len() implies b[p + x.len() + k] == y[k] by {
        assert(w[x.len() + k] == b[p + x.len() + k]);
        assert((x + y)[x.len() + k] == y[k]);
    }
    assert(b.subrange(p, p + x.len()) =~= x);
    assert(b.subrange(p + x.len(), p + x.len() + y.len()) =~= y);
}

proof fn lemma_jtext_start(v: JModel)
    requires
        canonical(v),
    ensures
        jtext(v).len() > 0,
        !is_ws(jtext(v)[0]),
        jtext(v)[0] == 34 ==> v is Str,
        jtext(v)[0] == 123 ==> v is Object,
        jtext(v)[0] == 91 ==> v is Array,
        jtext(v)[0] == 116 || jtext(v)[0] == 102 ==> v is Bool,
        jtext(v)[0] == 110 ==> v is Null,
        jtext(v)[0] == 45 || is_digit(jtext(v)[0]) ==> v is Number,
        jtext(v)[0] != 93 && jtext(v)[0] != 125,
{
    reveal_strlit("null");
    reveal_strlit("true");
    reveal_strlit("false");
}

proof fn lemma_read_scalar(v: JModel, b: Seq<u8>, p: int)
    requires
        canonical(v),
        !(v is Array),
        !(v is Object),
        0 <= p,
        p + jtext(v).len() <= b.len(),
        b.subrange(p, p + jtext(v).len()) == jtext(v),
        delim(b, p + jtext(v).len()),
    ensures
        jval(b, p) == PStep::Done(v, p + jtext(v).len()),
{
    let t = jtext(v);
    lemma_jtext_start(v);
    assert(b[p] == t[0]) by {
        assert(b.subrange(p, p + t.len())[0] == t[0]);
    }
    reveal_strlit("null");
    reveal_strlit("true");
    reveal_strlit("false");
    match v {
        JModel::Null => {
            assert(t == lit("null"));
            assert(t.len() == 4);
            assert(b.subrange(p, b.len() as int).subrange(0, 4) =~= b.subrange(p, p + 4));
            assert(has_prefix(b.subrange(p, b.len() as int), lit("null")));
        },
        JModel::Bool(x) => {
            if x {
                assert(t == lit("true"));
                assert(t.len() == 4);
                assert(b.subrange(p, b.len() as int).subrange(0, 4) =~= b.subrange(p, p + 4));
                assert(has_prefix(b.subrange(p, b.len() as int), lit("true")));
            } else {
                assert(t == lit("false"));
                assert(t.len() == 5);
                assert(b[p] == 102);
                assert(b.subrange(p, b.len() as int).subrange(0, 4) != lit("true")) by {
                    assert(b.subrange(p, b.len() as int).subrange(0, 4)[0] == 102);
                }
                assert(b.subrange(p, b.len() as int).subrange(0, 5) =~= b.subrange(p, p + 5));
                assert(has_prefix(b.subrange(p, b.len() as int), lit("false")));
            }
        },
        JModel::Number(n) => {
            lemma_num_window(n, b, p);
        },
        JModel::Str(s) => {
            let e = escape(s);
            assert(t == seq![34u8] + e + seq![34u8]);
            lemma_window_split(b, p, seq![34u8] + e, seq![34u8]);
            lemma_window_split(b, p, seq![34u8], e);
            assert(b[p + 1 + e.len()] == 34) by {
                assert(b.subrange(p + 1 + e.len(), p + 2 + e.len())[0] == 34);
            }
            lemma_read_string(s, b, p + 1);
        },
        _ => {},
    }
}

/// A value's text at `p`, followed by a delimiter, parses to the value.
proof fn lemma_read_value(v: JModel, b: Seq<u8>, p: int)
    requires
        canonical(v),
        0 <= p,
        p + jtext(v).len() <= b.len(),
        b.subrange(p, p + jtext(v).len()) == jtext(v),
        delim(b, p + jtext(v).len()),
    ensures
        jval(b, p) == PStep::Done(v, p + jtext(v).len()),
    decreases v, 2nat,
{
    match v {
        JModel::Array(a) => lemma_read_array(v, b, p),
        JModel::Object(m) => lemma_read_object(v, b, p),
        _ => lemma_read_scalar(v, b, p),
    }
}

proof fn lemma_read_array(v: JModel, b: Seq<u8>, p: int)
    requires
        v is Array,
        canonical(v),
        0 <= p,
        p + jtext(v).len() <= b.len(),
        b.subrange(p, p + jtext(v).len()) == jtext(v),
        delim(b, p + jtext(v).len()),
    ensures
        jval(b, p) == PStep::Done(v, p + jtext(v).len()),
    decreases v, 1nat,
{
    let a = v->Array_0;
    let t = jtext(v);
    lemma_jtext_start(v);
    assert(b[p] == t[0]) by {
        assert(b.subrange(p, p + t.len())[0] == t[0]);
    }
    lemma_canon_all(a);
    let body = jlist(a);
    assert(t == seq![91u8] + body + seq![93u8]);
    lemma_window_split(b, p, seq![91u8] + body, seq![93u8]);
    lemma_window_split(b, p, seq![91u8], body);
    assert(b[p + 1 + body.len()] == 93) by {
        assert(b.subrange(p + 1 + body.len(), p + 2 + body.len())[0] == 93);
    }
    if a.len() == 0 {
        assert(body.len() == 0);
        assert(a =~= seq![]);
    } else {
        assert(decreases_to!(v => a));
        lemma_read_elems(a, b, p + 1);
        lemma_jtext_start(a[0]);
        lemma_jlist_front(a);
        assert(b[p + 1] == body[0]) by {
            assert(b.subrange(p + 1, p + 1 + body.len())[0] == body[0]);
        }
    }
}

proof fn lemma_read_object(v: JModel, b: Seq<u8>, p: int)
    requires
        v is Object,
        canonical(v),
        0 <= p,
        p + jtext(v).len() <= b.len(),
        b.subrange(p, p + jtext(v).len()) == jtext(v),
        delim(b, p + jtext(v).len()),
    ensures
        jval(b, p) == PStep::Done(v, p + jtext(v).len()),
    decreases v, 1nat,
{
    let m = v->Object_0;
    let t = jtext(v);
    lemma_jtext_start(v);
    assert(b[p] == t[0]) by {
        assert(b.subrange(p, p + t.len())[0] == t[0]);
    }
    lemma_canon_members(m);
    lemma_object_of_sorted(m);
    let body = jmembers(m);
    assert(t == seq![123u8] + body + seq![125u8]);
    lemma_window_split(b, p, seq![123u8] + body, seq![125u8]);
    lemma_window_split(b, p, seq![123u8], body);
    assert(b[p + 1 + body.len()] == 125) by {
        assert(b.subrange(p + 1 + body.len(), p + 2 + body.len())[0] == 125);
    }
    if m.len() == 0 {
        assert(body.len() == 0);
        assert(m =~= seq![]);
    } else {
        assert(decreases_to!(v => m));
        lemma_read_members(m, b, p + 1);
        lemma_jmembers_front(m);
        assert(b[p + 1] == body[0]) by {
            assert(b.subrange(p + 1, p + 1 + body.len())[0] == body[0]);
        }
    }
}

proof fn lemma_read_elems(a: Seq<JModel>, b: Seq<u8>, p: int)
    requires
        a.len() > 0,
        forall|i: int| 0 <= i < a.len() ==> canonical(#[trigger] a[i]),
        0 <= p,
        p + jlist(a).len() < b.len(),
        b.subrange(p, p + jlist(a).len()) == jlist(a),
        b[p + jlist(a).len()] == 93,
    ensures
        jelems_at(b, p) == PStep::Done(a, p + jlist(a).len() + 1),
    decreases a, 0nat,
{
    lemma_jlist_front(a);
    let t0 = jtext(a[0]);
    lemma_jtext_start(a[0]);
    if a.len() == 1 {
        lemma_read_value(a[0], b, p);
        assert(seq![a[0]] =~= a);
    } else {
        let rest = a.subrange(1, a.len() as int);
        assert(rest =~= a.drop_first());
        let tail = jlist(rest);
        lemma_window_split(b, p, t0 + seq![44u8], tail);
        lemma_window_split(b, p, t0, seq![44u8]);
        assert(b[p + t0.len()] == 44) by {
            assert(b.subrange(p + t0.len(), p + t0.len() + 1)[0] == 44);
        }
        lemma_read_value(a[0], b, p);
        assert forall|i: int| 0 <= i < rest.len() implies canonical(#[trigger] rest[i]) by {
            assert(rest[i] == a[i + 1]);
        }
        lemma_read_elems(rest, b, p + t0.len() + 1);
        lemma_jtext_start(rest[0]);
        lemma_jlist_front(rest);
        assert(b[p + t0.len() + 1] == tail[0]) by {
            assert(b.subrange(p + t0.len() + 1, p + t0.len() + 1 + tail.len())[0] == tail[0]);
        }
        assert(seq![a[0]] + rest =~= a);
    }
}

#[verifier::spinoff_prover]
proof fn lemma_read_members(m: Seq<(Seq<u8>, JModel)>, b: Seq<u8>, p: int)
    requires
        m.len() > 0,
        forall|i: int| 0 <= i < m.len() ==> ascii(#[trigger] m[i].0) && canonical(m[i].1),
        0 <= p,
        p + jmembers(m).len() < b.len(),
        b.subrange(p, p + jmembers(m).len()) == jmembers(m),
        b[p + jmembers(m).len()] == 125,
    ensures
        jmembers_at(b, p) == PStep::Done(m, p + jmembers(m).len() + 1),
    decreases m, 0nat,
{
    lemma_jmembers_front(m);
    let k = m[0].0;
    let v = m[0].1;
    let ks = jstr(k);
    let tv = jtext(v);
    assert(ascii(k) && canonical(v));
    lemma_jtext_start(v);
    let head = ks + seq![58u8] + tv;
    let rest = m.subrange(1, m.len() as int);
    assert(rest =~= m.drop_first());
    if m.len() == 1 {
        lemma_window_split(b, p, ks + seq![58u8], tv);
    } else {
        lemma_window_split(b, p, head + seq![44u8], jmembers(rest));
        lemma_window_split(b, p, head, seq![44u8]);
        lemma_window_split(b, p, ks + seq![58u8], tv);
    }
    lemma_window_split(b, p, ks, seq![58u8]);
    let e = escape(k);
    lemma_window_split(b, p, seq![34u8] + e, seq![34u8]);
    lemma_window_split(b, p, seq![34u8], e);
    assert(b[p] == 34) by {
        assert(b.subrange(p, p + 1)[0] == 34);
    }
    assert(b[p + 1 + e.len()] == 34) by {
        assert(b.subrange(p + 1 + e.len(), p + 2 + e.len())[0] == 34);
    }
    lemma_read_string(k, b, p + 1);
    assert(b[p + ks.len()] == 58) by {
        assert(b.subrange(p + ks.len(), p + ks.len() + 1)[0] == 58);
    }
    let vq = p + ks.len() + 1;
    assert(b[vq] == tv[0]) by {
        assert(b.subrange(vq, vq + tv.len())[0] == tv[0]);
    }
    if m.len() == 1 {
        lemma_read_value(v, b, vq);
        assert(member_at(b, p) == PStep::Done((k, v), vq + tv.len()));
        assert(seq![(k, v)] =~= m);
    } else {
        assert(b[vq + tv.len()] == 44) by {
            assert(b.subrange(p + head.len(), p + head.len() + 1)[0] == 44);
        }
        lemma_read_value(v, b, vq);
        assert(member_at(b, p) == PStep::Done((k, v), vq + tv.len()));
        let np = vq + tv.len() + 1;
        assert forall|i: int| 0 <= i < rest.len() implies ascii(#[trigger] rest[i].0) && canonical(
            rest[i].1,
        ) by {
            assert(rest[i] == m[i + 1]);
            assert(ascii(m[i + 1].0) && canonical(m[i + 1].1));
        }
        lemma_read_members(rest, b, np);
        let tail = jmembers(rest);
        assert(b[np] == tail[0]) by {
            lemma_jmembers_front(rest);
            assert(b.subrange(np, np + tail.len())[0] == tail[0]);
        }
        assert(seq![(k, v)] + rest =~= m);
    }
}

/// Serialising a value and parsing the text gives the value back, for
/// values whose strings and keys are ASCII, whose numbers are number
/// literals and whose objects have their keys in strictly increasing
/// order (as objects built by `json_object` have).
pub proof fn lemma_parse_to_json_string(v: JModel)
    requires
        canonical(v),
    ensures
        jparse(jtext(v)) == PStep::Done(v, jtext(v).len() as int),
{
    let t = jtext(v);
    lemma_jtext_start(v);
    assert(t.subrange(0, t.len() as int) =~= t);
    lemma_read_value(v, t, 0);
}


// ---------------------------------------------------------------------
// Tool calls in model output
// ---------------------------------------------------------------------

/// Skips the inside of a string literal from `k` (just after its opening
/// quote): the position of the closing quote, or the end of the input.
/// A backslash skips the byte after it.
pub open spec fn str_skip(b: Seq<u8>, k: int) -> int
    decreases b.len() - k,
{
    if k < 0 || k >= b.len() {
        k
    } else if b[k] == 34 {
        k
    } else if b[k] == 92 {
        if k + 2 >= b.len() {
            b.len() as int
        } else {
            str_skip(b, k + 2)
        }
    } else {
        str_skip(b, k + 1)
    }
}

pub proof fn lemma_str_skip(b: Seq<u8>, k: int)
    requires
        0 <= k <= b.len(),
    ensures
        k <= str_skip(b, k) <= b.len(),
    decreases b.len() - k,
{
    if k < b.len() && b[k] != 34 {
        if b[k] == 92 {
            if k + 2 < b.len() {
                lemma_str_skip(b, k + 2);
            }
        } else {
            lemma_str_skip(b, k + 1);
        }
    }
}

/// Scanning from `j` with `depth` braces open, the position of the `}`
/// that closes the first of them; braces inside string literals do not
/// count.
pub open spec fn brace_close(b: Seq<u8>, j: int, depth: int) -> Option<int>
    decreases b.len() - j,
{
    if j < 0 || j >= b.len() {
        None
    } else if b[j] == 123 {
        brace_close(b, j + 1, depth + 1)
    } else if b[j] == 125 {
        if depth - 1 == 0 {
            Some(j)
        } else {
            brace_close(b, j + 1, depth - 1)
        }
    } else if b[j] == 34 {
        let nx = str_skip(b, j + 1) + 1;
        proof {
            lemma_str_skip(b, j + 1);
        }
        if nx >= b.len() {
            None
        } else {
            brace_close(b, nx, depth)
        }
    } else {
        brace_close(b, j + 1, depth)
    }
}

pub proof fn lemma_brace_close(b: Seq<u8>, j: int, depth: int)
    requires
        0 <= j,
    ensures
        brace_close(b, j, depth) matches Some(x) ==> j <= x < b.len(),
    decreases b.len() - j,
{
    if j < b.len() {
        if b[j] == 34 {
            lemma_str_skip(b, j + 1);
            let nx = str_skip(b, j + 1) + 1;
            if nx < b.len() {
                lemma_brace_close(b, nx, depth);
            }
        } else if b[j] != 125 || depth - 1 != 0 {
            if b[j] == 123 {
                lemma_brace_close(b, j + 1, depth + 1);
            } else if b[j] == 125 {
                lemma_brace_close(b, j + 1, depth - 1);
            } else {
                lemma_brace_close(b, j + 1, depth);
            }
        }
    }
}

/// Where the scan for calls goes on after a `{` at `i`: after the brace
/// that closes it, or at the next byte when none does.
pub open spec fn after_brace(b: Seq<u8>, i: int) -> int {
    match brace_close(b, i, 0) {
        Some(j) => j + 1,
        None => i + 1,
    }
}

/// Whether a value is a tool call: an object with a `tool` member.
pub open spec fn is_call(v: JModel) -> bool {
    jget(v, lit("tool")) is Some
}

/// The tool calls found from position `i`. At each `{` the rest of the
/// text is parsed; a parsed object with a `tool` member is a call. The
/// scan goes on after the brace that closes that `{`. `None` where a
/// parse would read past the end of the text.
pub open spec fn calls_from(b: Seq<u8>, i: int) -> Option<Seq<JModel>>
    decreases b.len() - i,
{
    if i < 0 || i >= b.len() {
        Some(seq![])
    } else if b[i] != 123 {
        calls_from(b, i + 1)
    } else {
        let r = jparse(b.subrange(i, b.len() as int));
        let next = after_brace(b, i);
        proof {
            lemma_brace_close(b, i, 0);
        }
        if r is Abort {
            None
        } else {
            let head = if r matches PStep::Done(v, _) && is_call(v) {
                seq![r->Done_0]
            } else {
                seq![]
            };
            match calls_from(b, next) {
                Some(rest) => Some(head + rest),
                None => None,
            }
        }
    }
}

fn str_skip_at(b: &[u8], k: usize) -> (r: usize)
    requires
        k <= b@.len(),
    ensures
        r == str_skip(b@, k as int),
        k <= r <= b@.len(),
{
    let mut i = k;
    while i < b.len() && b[i] != 34
        invariant
            k <= i <= b@.len(),
            str_skip(b@, k as int) == str_skip(b@, i as int),
        decreases b.len() - i,
    {
        if b[i] == 92 {
            if b.len() - i <= 2 {
                return b.len();
            }
            i = i + 2;
        } else {
            i = i + 1;
        }
    }
    i
}

fn brace_close_at(b: &[u8], i: usize) -> (r: Option<usize>)
    requires
        i < b@.len(),
        b@[i as int] == 123,
    ensures
        match r {
            Some(x) => brace_close(b@, i as int, 0) == Some(x as int),
            None => brace_close(b@, i as int, 0) is None,
        },
{
    let mut depth: usize = 0;
    let mut j = i;
    while j < b.len()
        invariant
            i <= j <= b@.len(),
            b@[i as int] == 123,
            depth <= j - i,
            j > i ==> depth >= 1,
            brace_close(b@, i as int, 0) == brace_close(b@, j as int, depth as int),
        decreases b.len() - j,
    {
        let c = b[j];
        if c == 123 {
            depth = depth + 1;
            j = j + 1;
        } else if c == 125 {
            if depth == 1 {
                return Some(j);
            }
            depth = depth - 1;
            j = j + 1;
        } else if c == 34 {
            let k = str_skip_at(b, j + 1);
            if b.len() - k <= 1 {
                return None;
            }
            j = k + 1;
        } else {
            j = j + 1;
        }
    }
    None
}

/// Finds the tool calls in model output; `None` where parsing from a `{`
/// would read past the end of the text.
pub fn extract_tool_calls_checked(output: &[u8]) -> (r: Option<Vec<JsonValue>>)
    ensures
        match r {
            Some(v) => calls_from(output@, 0) == Some(jviews(v@)),
            None => calls_from(output@, 0) is None,
        },
{
    let mut calls: Vec<JsonValue> = Vec::new();
    let mut i: usize = 0;
    assert(jviews(calls@) =~= seq![]);
    assert(calls_from(output@, 0) matches Some(t) ==> seq![] + t =~= t);
    while i < output.len()
        invariant
            i <= output@.len(),
            match calls_from(output@, 0) {
                Some(all) => calls_from(output@, i as int) matches Some(t) && all == jviews(calls@)
                    + t,
                None => calls_from(output@, i as int) is None,
            },
        decreases output.len() - i,
    {
        if output[i] == 123 {
            let rest = vstd::slice::slice_subrange(output, i, output.len());
            proof {
                lemma_brace_close(output@, i as int, 0);
            }
            let ghost c0 = jviews(calls@);
            match parse_checked(rest) {
                None => {
                    return None;
                },
                Some(Ok(v)) => {
                    proof { reveal_strlit("tool"); }
                    let key = ascii_bytes("tool");
                    if v.get(key.as_slice()).is_some() {
                        let ghost o0 = calls@;
                        let ghost vv = v@;
                        calls.push(v);
                        proof {
                            assert(calls@.drop_last() =~= o0);
                            assert(jviews(calls@) == c0.push(vv));
                            assert forall|t: Seq<JModel>| true implies c0 + (seq![vv] + t) =~= c0.push(vv)
                                + t by {}
                        }
                    } else {
                        proof {
                            assert forall|t: Seq<JModel>| true implies c0 + (seq![] + t) =~= c0 + t by {}
                        }
                    }
                },
                Some(Err(_)) => {
                    proof {
                        assert forall|t: Seq<JModel>| true implies c0 + (seq![] + t) =~= c0 + t by {}
                    }
                },
            }
            i = match brace_close_at(output, i) {
                Some(j) => j + 1,
                None => i + 1,
            };
        } else {
            i = i + 1;
        }
    }
    proof {
        if let Some(all) = calls_from(output@, 0) {
            assert(jviews(calls@) + seq![] =~= jviews(calls@));
        }
    }
    Some(calls)
}

/// Finds the tool calls in model output: the objects with a `tool`
/// member that start at a `{` of the text, scanning on after the brace
/// that closes each `{` tried.
pub fn extract_tool_calls(output: &[u8]) -> (r: Vec<JsonValue>)
    requires
        calls_from(output@, 0) is Some,
    ensures
        calls_from(output@, 0) == Some(jviews(r@)),
{
    match extract_tool_calls_checked(output) {
        Some(v) => v,
        None => Vec::new(),
    }
}


// ---------------------------------------------------------------------
// Building values
// ---------------------------------------------------------------------

/// A number holding the decimal text of `n`.
pub fn json_u64(n: u64) -> (r: JsonValue)
    ensures
        r@ == JModel::Number(crate::text::dec(n as nat)),
{
    let mut t: Vec<u8> = Vec::new();
    crate::text::push_dec(&mut t, n);
    assert(t@ =~= crate::text::dec(n as nat));
    JsonValue::Number(t)
}

/// An object with no members.
pub fn empty_object() -> (r: JsonValue)
    ensures
        r@ == JModel::Object(seq![]),
{
    let m: Vec<(Vec<u8>, JsonValue)> = Vec::new();
    assert(jentries(m@) =~= seq![]);
    JsonValue::Object(m)
}

/// A copy of an optional value.
pub fn duplicate_opt(v: Option<&JsonValue>) -> (r: Option<JsonValue>)
    ensures
        match v {
            Some(x) => r matches Some(y) && y@ == x@,
            None => r is None,
        },
{
    match v {
        Some(x) => Some(x.duplicate()),
        None => None,
    }
}

/// The model of an optional value.
pub open spec fn jopt(v: Option<JsonValue>) -> Option<JModel> {
    match v {
        Some(x) => Some(x@),
        None => None,
    }
}

/// A copy of an object's members.
pub fn duplicate_members(m: &Vec<(Vec<u8>, JsonValue)>) -> (r: Vec<(Vec<u8>, JsonValue)>)
    ensures
        jentries(r@) == jentries(m@),
{
    let mut out: Vec<(Vec<u8>, JsonValue)> = Vec::new();
    let mut i: usize = 0;
    while i < m.len()
        invariant
            0 <= i <= m@.len(),
            jentries(out@) == jentries(m@.subrange(0, i as int)),
        decreases m.len() - i,
    {
        let c = m[i].1.duplicate();
        let k = to_vec(m[i].0.as_slice());
        let ghost o0 = out@;
        out.push((k, c));
        proof {
            assert(out@.drop_last() =~= o0);
            assert(m@.subrange(0, i + 1).drop_last() =~= m@.subrange(0, i as int));
        }
        i = i + 1;
    }
    assert(m@.subrange(0, i as int) =~= m@);
    out
}

/// The members of an object (none for other values).
pub open spec fn members_of(v: JModel) -> Seq<(Seq<u8>, JModel)> {
    match v {
        JModel::Object(m) => m,
        _ => seq![],
    }
}

/// The string under a key, when it is one.
pub open spec fn str_at(v: JModel, k: Seq<u8>) -> Option<Seq<u8>> {
    match jget(v, k) {
        Some(JModel::Str(s)) => Some(s),
        _ => None,
    }
}

/// An optional string member: absent, a string, or another value (`Err`).
pub open spec fn opt_str_at(v: JModel, k: Seq<u8>) -> Result<Option<Seq<u8>>, ()> {
    match jget(v, k) {
        None => Ok(None),
        Some(JModel::Str(s)) => Ok(Some(s)),
        Some(_) => Err(()),
    }
}

/// The bytes of an optional byte string.
pub open spec fn sopt(o: Option<Vec<u8>>) -> Option<Seq<u8>> {
    match o {
        Some(v) => Some(v@),
        None => None,
    }
}

/// A copy of the string under a key, when it is one.
pub fn get_str(v: &JsonValue, key: &[u8]) -> (r: Option<Vec<u8>>)
    ensures
        sopt(r) == str_at(v@, key@),
{
    match v.get(key) {
        Some(x) => match x.as_str() {
            Some(s) => Some(to_vec(s)),
            None => None,
        },
        None => None,
    }
}

/// A copy of an optional string member; `Err` when it is not a string.
pub fn get_opt_str(v: &JsonValue, key: &[u8]) -> (r: Result<Option<Vec<u8>>, ()>)
    ensures
        match r {
            Ok(o) => opt_str_at(v@, key@) == Ok::<Option<Seq<u8>>, ()>(sopt(o)),
            Err(_) => opt_str_at(v@, key@) is Err,
        },
{
    match v.get(key) {
        None => Ok(None),
        Some(x) => match x.as_str() {
            Some(s) => Ok(Some(to_vec(s))),
            None => Err(()),
        },
    }
}

/// A copy of an optional byte string.
pub fn copy_opt(o: &Option<Vec<u8>>) -> (r: Option<Vec<u8>>)
    ensures
        sopt(r) == sopt(*o),
{
    match o {
        Some(v) => Some(to_vec(v.as_slice())),
        None => None,
    }
}

/// Members without the first one with key `k`.
pub open spec fn jremove(m: Seq<(Seq<u8>, JModel)>, k: Seq<u8>) -> Seq<(Seq<u8>, JModel)>
    decreases m.len(),
{
    if m.len() == 0 {
        m
    } else if m[0].0 == k {
        m.drop_first()
    } else {
        seq![m[0]] + jremove(m.drop_first(), k)
    }
}

/// Removes a member from an object's member list.
pub fn object_remove(members: &mut Vec<(Vec<u8>, JsonValue)>, key: &[u8])
    ensures
        jentries(final(members)@) == jremove(jentries(old(members)@), key@),
{
    let ghost all = jentries(members@);
    proof {
        lemma_jentries_len(members@);
    }
    let mut i: usize = 0;
    assert(all.subrange(0, all.len() as int) =~= all);
    assert(all.subrange(0, 0) + jremove(all, key@) =~= jremove(all, key@));
    while i < members.len()
        invariant
            0 <= i <= members@.len(),
            members@ == old(members)@,
            all == jentries(members@),
            all.len() == members@.len(),
            jremove(all, key@) == all.subrange(0, i as int) + jremove(all.subrange(i as int, all.len() as int), key@),
        decreases members.len() - i,
    {
        proof {
            lemma_jentries_index(members@, i as int);
        }
        let ghost rest = all.subrange(i as int, all.len() as int);
        assert(rest[0] == all[i as int]);
        assert(rest.drop_first() =~= all.subrange(i + 1, all.len() as int));
        if bytes_eq(members[i].0.as_slice(), key) {
            let ghost m0 = members@;
            members.remove(i);
            proof {
                lemma_jentries_len(members@);
                assert forall|j: int| 0 <= j < members@.len() implies #[trigger] jentries(members@)[j]
                    == (all.subrange(0, i as int) + rest.drop_first())[j] by {
                    lemma_jentries_index(members@, j);
                    if j < i {
                        lemma_jentries_index(m0, j);
                    } else {
                        lemma_jentries_index(m0, j + 1);
                    }
                }
                assert(jentries(members@) =~= all.subrange(0, i as int) + rest.drop_first());
            }
            return;
        }
        assert(all.subrange(0, i as int) + (seq![rest[0]] + jremove(rest.drop_first(), key@)) =~= all.subrange(0, i + 1)
            + jremove(all.subrange(i + 1, all.len() as int), key@));
        i = i + 1;
    }
    assert(all.subrange(i as int, all.len() as int) =~= seq![]);
    assert(all.subrange(0, i as int) =~= all);
}

/// Whether two values are the same value (numbers compared by their
/// text).
pub fn json_eq(a: &JsonValue, b: &JsonValue) -> (r: bool)
    ensures
        r == (a@ == b@),
    decreases a,
{
    match (a, b) {
        (JsonValue::Null, JsonValue::Null) => true,
        (JsonValue::Bool(x), JsonValue::Bool(y)) => *x == *y,
        (JsonValue::Number(x), JsonValue::Number(y)) => bytes_eq(x.as_slice(), y.as_slice()),
        (JsonValue::Str(x), JsonValue::Str(y)) => bytes_eq(x.as_slice(), y.as_slice()),
        (JsonValue::Array(x), JsonValue::Array(y)) => {
            proof {
                lemma_jviews_len(x@);
                lemma_jviews_len(y@);
            }
            if x.len() != y.len() {
                return false;
            }
            let mut i: usize = 0;
            while i < x.len()
                invariant
                    0 <= i <= x@.len(),
                    x@.len() == y@.len(),
                    *a == JsonValue::Array(*x),
                    *b == JsonValue::Array(*y),
                    jviews(x@).len() == x@.len(),
                    jviews(y@).len() == y@.len(),
                    forall|k: int| 0 <= k < i ==> jviews(x@)[k] == jviews(y@)[k],
                decreases x.len() - i,
            {
                assert(decreases_to!(*a => (*a)->Array_0));
                assert(decreases_to!(*x => x@));
                assert(decreases_to!(x@ => x@[i as int]));
                proof {
                    lemma_jviews_index(x@, i as int);
                    lemma_jviews_index(y@, i as int);
                }
                if !json_eq(&x[i], &y[i]) {
                    assert(jviews(x@)[i as int] != jviews(y@)[i as int]);
                    return false;
                }
                i = i + 1;
            }
            assert(jviews(x@) =~= jviews(y@));
            true
        },
        (JsonValue::Object(x), JsonValue::Object(y)) => {
            proof {
                lemma_jentries_len(x@);
                lemma_jentries_len(y@);
            }
            if x.len() != y.len() {
                return false;
            }
            let mut i: usize = 0;
            while i < x.len()
                invariant
                    0 <= i <= x@.len(),
                    x@.len() == y@.len(),
                    *a == JsonValue::Object(*x),
                    *b == JsonValue::Object(*y),
                    jentries(x@).len() == x@.len(),
                    jentries(y@).len() == y@.len(),
                    forall|k: int| 0 <= k < i ==> jentries(x@)[k] == jentries(y@)[k],
                decreases x.len() - i,
            {
                assert(decreases_to!(*a => (*a)->Object_0));
                assert(decreases_to!(*x => x@));
                assert(decreases_to!(x@ => x@[i as int]));
                assert(decreases_to!(x@[i as int] => x@[i as int].1));
                proof {
                    lemma_jentries_index(x@, i as int);
                    lemma_jentries_index(y@, i as int);
                }
                if !bytes_eq(x[i].0.as_slice(), y[i].0.as_slice()) {
                    assert(jentries(x@)[i as int] != jentries(y@)[i as int]);
                    return false;
                }
                if !json_eq(&x[i].1, &y[i].1) {
                    assert(jentries(x@)[i as int] != jentries(y@)[i as int]);
                    return false;
                }
                i = i + 1;
            }
            assert(jentries(x@) =~= jentries(y@));
            true
        },
        _ => false,
    }
}


/// The hex digit for `d` (below 16), in upper or lower case.
pub open spec fn hex_char(d: nat, upper: bool) -> u8 {
    if d < 10 {
        (48 + d) as u8
    } else if upper {
        (55 + d) as u8
    } else {
        (87 + d) as u8
    }
}

/// A `\u` escape of four hex digits that is not a surrogate reads as the
/// UTF-8 encoding of the code point the digits write, most significant
/// first: `"\u00e9"` is `C3 A9`.
pub proof fn lemma_unicode_escape(d0: nat, d1: nat, d2: nat, d3: nat, upper: bool)
    requires
        d0 < 16,
        d1 < 16,
        d2 < 16,
        d3 < 16,
        !(0xD800 <= d0 * 4096 + d1 * 256 + d2 * 16 + d3 <= 0xDFFF),
    ensures
        ({
            let v = d0 * 4096 + d1 * 256 + d2 * 16 + d3;
            let text = seq![
                34u8,
                92u8,
                117u8,
                hex_char(d0, upper),
                hex_char(d1, upper),
                hex_char(d2, upper),
                hex_char(d3, upper),
                34u8,
            ];
            jparse(text) == PStep::Done(
                JModel::Str(
                    if v < 0x80 {
                        seq![v as u8]
                    } else if v < 0x800 {
                        seq![(0xC0 + v / 64) as u8, (0x80 + v % 64) as u8]
                    } else {
                        seq![(0xE0 + v / 4096) as u8, (0x80 + (v / 64) % 64) as u8, (0x80 + v % 64) as u8]
                    },
                ),
                8,
            )
        }),
{
    let b = seq![
        34u8,
        92u8,
        117u8,
        hex_char(d0, upper),
        hex_char(d1, upper),
        hex_char(d2, upper),
        hex_char(d3, upper),
        34u8,
    ];
    let h = b.subrange(3, 7);
    assert(h =~= seq![hex_char(d0, upper), hex_char(d1, upper), hex_char(d2, upper), hex_char(d3, upper)]);
    crate::sysconfig::lemma_ascii_utf8(h);
    assert(hex_digit_value(h[0]) == d0 && hex_digit_value(h[1]) == d1);
    assert(hex_digit_value(h[2]) == d2 && hex_digit_value(h[3]) == d3);
    assert(hex4_ok(h));
    assert(hex4_val(h) == d0 * 4096 + d1 * 256 + d2 * 16 + d3);
    assert(skip_ws(b, 0) == 0);
    assert(str_body(b, 7) == PStep::<Seq<u8>>::Done(seq![], 8));
    let v = d0 * 4096 + d1 * 256 + d2 * 16 + d3;
    assert(unicode_piece(v as int) + seq![] =~= unicode_piece(v as int));
}


#[verifier::spinoff_prover]
proof fn lemma_escape_alone(e: u8)
    requires
        e != 117,
    ensures
        jparse(seq![34u8, 92u8, e, 34u8]) == PStep::Done(JModel::Str(escape_piece(e)), 4),
{
    let b = seq![34u8, 92u8, e, 34u8];
    assert(skip_ws(b, 0) == 0);
    assert(str_body(b, 3) == PStep::<Seq<u8>>::Done(seq![], 4));
    assert(escape_piece(e) + Seq::<u8>::empty() =~= escape_piece(e));
}

#[verifier::spinoff_prover]
proof fn lemma_plain_alone(c: u8)
    requires
        32 <= c <= 126,
        c != 34,
        c != 92,
    ensures
        jparse(seq![34u8, c, 34u8]) == PStep::Done(JModel::Str(seq![c]), 3),
{
    let b = seq![34u8, c, 34u8];
    assert(skip_ws(b, 0) == 0);
    assert(str_body(b, 2) == PStep::<Seq<u8>>::Done(seq![], 3));
    assert(seq![c] + Seq::<u8>::empty() =~= seq![c]);
}

/// The short escapes read as their characters: `\n` line feed, `\r`
/// carriage return, `\t` tab, and `\"`, `\\`, `\/` the character itself; a
/// printable ASCII byte other than a quote or backslash reads as itself.
pub proof fn lemma_short_escapes(c: u8)
    requires
        32 <= c <= 126,
        c != 34,
        c != 92,
    ensures
        jparse(seq![34u8, 92u8, 110u8, 34u8]) == PStep::Done(JModel::Str(seq![10u8]), 4),
        jparse(seq![34u8, 92u8, 114u8, 34u8]) == PStep::Done(JModel::Str(seq![13u8]), 4),
        jparse(seq![34u8, 92u8, 116u8, 34u8]) == PStep::Done(JModel::Str(seq![9u8]), 4),
        jparse(seq![34u8, 92u8, 34u8, 34u8]) == PStep::Done(JModel::Str(seq![34u8]), 4),
        jparse(seq![34u8, 92u8, 92u8, 34u8]) == PStep::Done(JModel::Str(seq![92u8]), 4),
        jparse(seq![34u8, 92u8, 47u8, 34u8]) == PStep::Done(JModel::Str(seq![47u8]), 4),
        jparse(seq![34u8, c, 34u8]) == PStep::Done(JModel::Str(seq![c]), 3),
{
    lemma_escape_alone(110u8);
    lemma_escape_alone(114u8);
    lemma_escape_alone(116u8);
    lemma_escape_alone(34u8);
    lemma_escape_alone(92u8);
    lemma_escape_alone(47u8);
    lemma_plain_alone(c);
}

} // verus!
