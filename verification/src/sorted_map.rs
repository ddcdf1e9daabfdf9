//! Maps keyed by byte strings, kept as entry lists in increasing key order
//! with distinct keys: inserting a present key replaces its value in place.

use vstd::prelude::*;

use crate::sysconfig::{bytes_less, bytes_lt};
use crate::text::bytes_eq;

verus! {

/// Entries with their keys taken by their bytes.
pub open spec fn pairs_view<V>(s: Seq<(Vec<u8>, V)>) -> Seq<(Seq<u8>, V)> {
    s.map_values(|e: (Vec<u8>, V)| (e.0@, e.1))
}

/// Entries after setting `k` to `v`: in place where `k` is present, else
/// before the first greater key.
pub open spec fn sinsert<V>(s: Seq<(Seq<u8>, V)>, k: Seq<u8>, v: V) -> Seq<(Seq<u8>, V)>
    decreases s.len(),
{
    if s.len() == 0 {
        seq![(k, v)]
    } else if s[0].0 == k {
        seq![(k, v)] + s.drop_first()
    } else if bytes_lt(k, s[0].0) {
        seq![(k, v)] + s
    } else {
        seq![s[0]] + sinsert(s.drop_first(), k, v)
    }
}

/// The value of the first entry with key `k`.
pub open spec fn sget<V>(s: Seq<(Seq<u8>, V)>, k: Seq<u8>) -> Option<V>
    decreases s.len(),
{
    if s.len() == 0 {
        None
    } else if s[0].0 == k {
        Some(s[0].1)
    } else {
        sget(s.drop_first(), k)
    }
}

/// Entries without the first one with key `k`.
pub open spec fn sremove<V>(s: Seq<(Seq<u8>, V)>, k: Seq<u8>) -> Seq<(Seq<u8>, V)>
    decreases s.len(),
{
    if s.len() == 0 {
        s
    } else if s[0].0 == k {
        s.drop_first()
    } else {
        seq![s[0]] + sremove(s.drop_first(), k)
    }
}

/// The index of the first entry with key `k`.
pub open spec fn sfind<V>(s: Seq<(Seq<u8>, V)>, k: Seq<u8>) -> Option<int>
    decreases s.len(),
{
    if s.len() == 0 {
        None
    } else if s[0].0 == k {
        Some(0)
    } else {
        match sfind(s.drop_first(), k) {
            Some(i) => Some(i + 1),
            None => None,
        }
    }
}

pub proof fn lemma_sfind<V>(s: Seq<(Seq<u8>, V)>, k: Seq<u8>)
    ensures
        sfind(s, k) matches Some(i) ==> 0 <= i < s.len() && s[i].0 == k && sget(s, k) == Some(s[i].1)
            && sremove(s, k) == s.subrange(0, i) + s.subrange(i + 1, s.len() as int),
        sfind(s, k) is None ==> sget(s, k) is None && sremove(s, k) == s && forall|j: int|
            0 <= j < s.len() ==> s[j].0 != k,
        sfind(s, k) matches Some(i) ==> forall|j: int| 0 <= j < i ==> s[j].0 != k,
    decreases s.len(),
{
    if s.len() > 0 {
        lemma_sfind(s.drop_first(), k);
        if s[0].0 != k {
            if let Some(i) = sfind(s.drop_first(), k) {
                assert forall|j: int| 0 <= j < i + 1 implies s[j].0 != k by {
                    if j > 0 {
                        assert(s[j] == s.drop_first()[j - 1]);
                    }
                }
                assert(seq![s[0]] + (s.drop_first().subrange(0, i) + s.drop_first().subrange(
                    i + 1,
                    s.drop_first().len() as int,
                )) =~= s.subrange(0, i + 1) + s.subrange(i + 2, s.len() as int));
            } else {
                assert(seq![s[0]] + s.drop_first() =~= s);
            }
        } else {
            assert(s.subrange(0, 0) + s.subrange(1, s.len() as int) =~= s.drop_first());
        }
    }
}

/// The position of a key among entries.
pub fn sm_find<V>(m: &Vec<(Vec<u8>, V)>, key: &[u8]) -> (r: Option<usize>)
    ensures
        match r {
            Some(i) => sfind(pairs_view(m@), key@) == Some(i as int),
            None => sfind(pairs_view(m@), key@) is None,
        },
{
    let ghost all = pairs_view(m@);
    let mut i: usize = 0;
    assert(all.subrange(0, all.len() as int) =~= all);
    while i < m.len()
        invariant
            0 <= i <= m@.len(),
            all == pairs_view(m@),
            sfind(all, key@) == (match sfind(all.subrange(i as int, all.len() as int), key@) {
                Some(j) => Some(j + i),
                None => None,
            }),
        decreases m.len() - i,
    {
        let ghost rest = all.subrange(i as int, all.len() as int);
        assert(rest[0] == all[i as int]);
        assert(rest.drop_first() =~= all.subrange(i + 1, all.len() as int));
        if bytes_eq(m[i].0.as_slice(), key) {
            return Some(i);
        }
        i = i + 1;
    }
    None
}

/// The value under a key.
pub fn sm_get<'a, V>(m: &'a Vec<(Vec<u8>, V)>, key: &[u8]) -> (r: Option<&'a V>)
    ensures
        match r {
            Some(v) => sget(pairs_view(m@), key@) == Some(*v),
            None => sget(pairs_view(m@), key@) is None,
        },
{
    proof {
        lemma_sfind(pairs_view(m@), key@);
    }
    match sm_find(m, key) {
        Some(i) => Some(&m[i].1),
        None => None,
    }
}

/// Sets a key to a value, keeping key order.
pub fn sm_insert<V>(m: &mut Vec<(Vec<u8>, V)>, key: Vec<u8>, value: V)
    ensures
        pairs_view(final(m)@) == sinsert(pairs_view(old(m)@), key@, value),
{
    let ghost all = pairs_view(m@);
    let ghost kk = key@;
    let ghost vv = value;
    let mut i: usize = 0;
    assert(all.subrange(0, all.len() as int) =~= all);
    assert(all.subrange(0, 0) + sinsert(all, kk, vv) =~= sinsert(all, kk, vv));
    while i < m.len()
        invariant
            0 <= i <= m@.len(),
            m@ == old(m)@,
            all == pairs_view(m@),
            kk == key@,
            vv == value,
            sinsert(all, kk, vv) == all.subrange(0, i as int) + sinsert(
                all.subrange(i as int, all.len() as int),
                kk,
                vv,
            ),
        decreases m.len() - i,
    {
        let ghost rest = all.subrange(i as int, all.len() as int);
        assert(rest[0] == all[i as int]);
        if bytes_eq(m[i].0.as_slice(), key.as_slice()) {
            m.set(i, (key, value));
            assert(pairs_view(m@) =~= all.subrange(0, i as int) + (seq![(kk, vv)] + rest.drop_first()));
            return;
        }
        if bytes_less(key.as_slice(), m[i].0.as_slice()) {
            m.insert(i, (key, value));
            assert(pairs_view(m@) =~= all.subrange(0, i as int) + (seq![(kk, vv)] + rest));
            return;
        }
        assert(all.subrange(0, i as int) + (seq![rest[0]] + sinsert(rest.drop_first(), kk, vv))
            =~= all.subrange(0, i + 1) + sinsert(all.subrange(i + 1, all.len() as int), kk, vv))
            by {
            assert(rest.drop_first() =~= all.subrange(i + 1, all.len() as int));
        }
        i = i + 1;
    }
    m.push((key, value));
    assert(all.subrange(i as int, all.len() as int) =~= seq![]);
    assert(pairs_view(m@) =~= all.subrange(0, i as int) + seq![(kk, vv)]);
}

/// Removes a key, giving back its value.
pub fn sm_remove<V>(m: &mut Vec<(Vec<u8>, V)>, key: &[u8]) -> (r: Option<V>)
    ensures
        pairs_view(final(m)@) == sremove(pairs_view(old(m)@), key@),
        r == sget(pairs_view(old(m)@), key@),
{
    proof {
        lemma_sfind(pairs_view(m@), key@);
    }
    match sm_find(m, key) {
        Some(i) => {
            let ghost all = pairs_view(m@);
            let e = m.remove(i);
            assert(pairs_view(m@) =~= all.subrange(0, i as int) + all.subrange(i + 1, all.len() as int));
            Some(e.1)
        },
        None => None,
    }
}


/// Replacing the value at the entry found for `k` is what `k` then gives.
pub proof fn lemma_sget_update<V>(s: Seq<(Seq<u8>, V)>, k: Seq<u8>, i: int, v: V)
    requires
        sfind(s, k) == Some(i),
    ensures
        sfind(s.update(i, (k, v)), k) == Some(i),
        sget(s.update(i, (k, v)), k) == Some(v),
{
    lemma_sfind(s, k);
    let t = s.update(i, (k, v));
    lemma_sfind(t, k);
    match sfind(t, k) {
        Some(j) => {
            if j < i {
                assert(t[j] == s[j]);
            }
            if j > i {
                assert(t[i].0 == k);
            }
        },
        None => {
            assert(t[i].0 == k);
        },
    }
}


/// Entries with each value mapped by `f`.
pub open spec fn smap<V, W>(s: Seq<(Seq<u8>, V)>, f: spec_fn(V) -> W) -> Seq<(Seq<u8>, W)> {
    s.map_values(|e: (Seq<u8>, V)| (e.0, f(e.1)))
}

pub proof fn lemma_smap_sinsert<V, W>(s: Seq<(Seq<u8>, V)>, k: Seq<u8>, v: V, f: spec_fn(V) -> W)
    ensures
        smap(sinsert(s, k, v), f) == sinsert(smap(s, f), k, f(v)),
    decreases s.len(),
{
    if s.len() > 0 {
        assert(smap(s, f).drop_first() =~= smap(s.drop_first(), f));
        assert(smap(s, f)[0] == (s[0].0, f(s[0].1)));
        if s[0].0 == k {
            assert(smap(seq![(k, v)] + s.drop_first(), f) =~= seq![(k, f(v))] + smap(s, f).drop_first());
        } else if bytes_lt(k, s[0].0) {
            assert(smap(seq![(k, v)] + s, f) =~= seq![(k, f(v))] + smap(s, f));
        } else {
            lemma_smap_sinsert(s.drop_first(), k, v, f);
            assert(smap(seq![s[0]] + sinsert(s.drop_first(), k, v), f) =~= seq![smap(s, f)[0]]
                + smap(sinsert(s.drop_first(), k, v), f));
        }
    } else {
        assert(smap(seq![(k, v)], f) =~= seq![(k, f(v))]);
    }
}

pub proof fn lemma_smap_sremove<V, W>(s: Seq<(Seq<u8>, V)>, k: Seq<u8>, f: spec_fn(V) -> W)
    ensures
        smap(sremove(s, k), f) == sremove(smap(s, f), k),
        sget(smap(s, f), k) == (match sget(s, k) {
            Some(v) => Some(f(v)),
            None => None,
        }),
    decreases s.len(),
{
    if s.len() > 0 {
        assert(smap(s, f).drop_first() =~= smap(s.drop_first(), f));
        assert(smap(s, f)[0] == (s[0].0, f(s[0].1)));
        lemma_smap_sremove(s.drop_first(), k, f);
        if s[0].0 != k {
            assert(smap(seq![s[0]] + sremove(s.drop_first(), k), f) =~= seq![smap(s, f)[0]]
                + smap(sremove(s.drop_first(), k), f));
        }
    }
}

} // verus!
