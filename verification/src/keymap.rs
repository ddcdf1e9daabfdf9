//! A small map keyed by byte strings, kept as a list of entries with
//! distinct keys. Its model is a `Map` from key bytes to values.

use vstd::prelude::*;

use crate::text::{bytes_eq, to_vec};

verus! {

/// The pairs of a list of entries, keys taken by their bytes.
pub open spec fn entries_view<V>(s: Seq<(Vec<u8>, V)>) -> Seq<(Seq<u8>, V)> {
    s.map_values(|e: (Vec<u8>, V)| (e.0@, e.1))
}

/// The map a list of pairs describes (a later pair wins over an earlier one).
pub open spec fn to_map<V>(s: Seq<(Seq<u8>, V)>) -> Map<Seq<u8>, V>
    decreases s.len(),
{
    if s.len() == 0 {
        Map::empty()
    } else {
        to_map(s.drop_last()).insert(s.last().0, s.last().1)
    }
}

/// No key occurs twice.
pub open spec fn keys_unique<V>(s: Seq<(Seq<u8>, V)>) -> bool {
    forall|i: int, j: int| 0 <= i < j < s.len() ==> s[i].0 != s[j].0
}

/// A key is in the map exactly when some pair holds it.
pub proof fn lemma_to_map_dom<V>(s: Seq<(Seq<u8>, V)>, k: Seq<u8>)
    ensures
        to_map(s).contains_key(k) <==> exists|i: int| 0 <= i < s.len() && (#[trigger] s[i]).0 == k,
    decreases s.len(),
{
    if s.len() > 0 {
        lemma_to_map_dom(s.drop_last(), k);
        if to_map(s.drop_last()).contains_key(k) {
            let i = choose|i: int| 0 <= i < s.drop_last().len() && (#[trigger] s.drop_last()[i]).0 == k;
            assert(s[i] == s.drop_last()[i]);
        }
        if exists|i: int| 0 <= i < s.len() && (#[trigger] s[i]).0 == k {
            let i = choose|i: int| 0 <= i < s.len() && (#[trigger] s[i]).0 == k;
            if i < s.len() - 1 {
                assert(s.drop_last()[i] == s[i]);
            }
        }
    }
}

/// With distinct keys, each pair's value is the map's value for its key.
pub proof fn lemma_to_map_index<V>(s: Seq<(Seq<u8>, V)>, i: int)
    requires
        keys_unique(s),
        0 <= i < s.len(),
    ensures
        to_map(s).contains_key(s[i].0),
        to_map(s)[s[i].0] == s[i].1,
    decreases s.len(),
{
    if i < s.len() - 1 {
        let t = s.drop_last();
        assert(t[i] == s[i]);
        assert(keys_unique(t)) by {
            assert forall|a: int, b: int| 0 <= a < b < t.len() implies t[a].0 != t[b].0 by {
                assert(t[a] == s[a] && t[b] == s[b]);
            }
        }
        lemma_to_map_index(t, i);
    }
}

/// Replacing the value of a pair replaces the map's value for its key.
pub proof fn lemma_to_map_update<V>(s: Seq<(Seq<u8>, V)>, j: int, v: V)
    requires
        keys_unique(s),
        0 <= j < s.len(),
    ensures
        to_map(s.update(j, (s[j].0, v))) == to_map(s).insert(s[j].0, v),
    decreases s.len(),
{
    let u = s.update(j, (s[j].0, v));
    if j == s.len() - 1 {
        assert(u.drop_last() =~= s.drop_last());
        lemma_to_map_dom(s.drop_last(), s[j].0);
        assert forall|i: int| 0 <= i < s.drop_last().len() implies (#[trigger] s.drop_last()[i]).0
            != s[j].0 by {
            assert(s.drop_last()[i] == s[i]);
        }
        assert(to_map(u) =~= to_map(s).insert(s[j].0, v));
    } else {
        let t = s.drop_last();
        assert(keys_unique(t)) by {
            assert forall|a: int, b: int| 0 <= a < b < t.len() implies t[a].0 != t[b].0 by {
                assert(t[a] == s[a] && t[b] == s[b]);
            }
        }
        assert(t[j] == s[j]);
        lemma_to_map_update(t, j, v);
        assert(u.drop_last() =~= t.update(j, (t[j].0, v)));
        assert(u.last() == s.last());
        assert(s.last().0 != s[j].0);
        assert(to_map(u) =~= to_map(s).insert(s[j].0, v));
    }
}

/// A map from byte strings to values.
pub struct KeyMap<V> {
    entries: Vec<(Vec<u8>, V)>,
}

impl<V> KeyMap<V> {
    /// The pairs of the map, in insertion order.
    pub closed spec fn pairs(&self) -> Seq<(Seq<u8>, V)> {
        entries_view(self.entries@)
    }

    /// The map's contents.
    pub open spec fn view(&self) -> Map<Seq<u8>, V> {
        to_map(self.pairs())
    }

    /// Keys are distinct.
    pub closed spec fn wf(&self) -> bool {
        keys_unique(self.pairs())
    }

    pub fn new() -> (r: Self)
        ensures
            r.wf(),
            r@ == Map::<Seq<u8>, V>::empty(),
            r.pairs() == Seq::<(Seq<u8>, V)>::empty(),
    {
        let r = KeyMap { entries: Vec::new() };
        assert(r.pairs() =~= seq![]);
        r
    }

    /// Number of keys.
    pub fn len(&self) -> (r: usize)
        ensures
            r == self.pairs().len(),
    {
        self.entries.len()
    }

    /// Where `key` is held, if anywhere.
    fn index_of(&self, key: &[u8]) -> (r: Option<usize>)
        ensures
            match r {
                Some(i) => i < self.pairs().len() && self.pairs()[i as int].0 == key@,
                None => forall|i: int|
                    0 <= i < self.pairs().len() ==> (#[trigger] self.pairs()[i]).0 != key@,
            },
    {
        let mut i: usize = 0;
        while i < self.entries.len()
            invariant
                0 <= i <= self.entries@.len(),
                self.pairs().len() == self.entries@.len(),
                forall|k: int| 0 <= k < i ==> (#[trigger] self.pairs()[k]).0 != key@,
            decreases self.entries.len() - i,
        {
            assert(self.pairs()[i as int].0 == self.entries@[i as int].0@);
            if bytes_eq(self.entries[i].0.as_slice(), key) {
                return Some(i);
            }
            i = i + 1;
        }
        None
    }

    /// The value for `key`.
    pub fn get(&self, key: &[u8]) -> (r: Option<&V>)
        requires
            self.wf(),
        ensures
            match r {
                Some(v) => self@.contains_key(key@) && self@[key@] == *v,
                None => !self@.contains_key(key@),
            },
    {
        proof {
            lemma_to_map_dom(self.pairs(), key@);
        }
        match self.index_of(key) {
            Some(i) => {
                proof {
                    lemma_to_map_index(self.pairs(), i as int);
                }
                Some(&self.entries[i].1)
            },
            None => None,
        }
    }

    /// Sets the value for `key`, adding the key if it is new.
    pub fn insert(&mut self, key: &[u8], value: V)
        requires
            old(self).wf(),
        ensures
            final(self).wf(),
            final(self)@ == old(self)@.insert(key@, value),
    {
        match self.index_of(key) {
            Some(i) => {
                let ghost p0 = self.pairs();
                let k = to_vec(self.entries[i].0.as_slice());
                self.entries.set(i, (k, value));
                proof {
                    assert(self.pairs() =~= p0.update(i as int, (p0[i as int].0, value)));
                    lemma_to_map_update(p0, i as int, value);
                }
            },
            None => {
                let ghost p0 = self.pairs();
                self.entries.push((to_vec(key), value));
                proof {
                    assert(self.pairs() =~= p0.push((key@, value)));
                    assert(self.pairs().drop_last() =~= p0);
                }
            },
        }
    }

    /// Removes every key.
    pub fn clear(&mut self)
        ensures
            final(self).wf(),
            final(self)@ == Map::<Seq<u8>, V>::empty(),
    {
        self.entries.clear();
        assert(self.pairs() =~= seq![]);
    }

    /// The value of the `i`-th pair.
    pub fn value_at(&self, i: usize) -> (r: &V)
        requires
            i < self.pairs().len(),
        ensures
            *r == self.pairs()[i as int].1,
    {
        &self.entries[i].1
    }

    /// Replaces the value of the `i`-th pair.
    pub fn set_value_at(&mut self, i: usize, value: V)
        requires
            i < old(self).pairs().len(),
        ensures
            final(self).pairs() == old(self).pairs().update(
                i as int,
                (old(self).pairs()[i as int].0, value),
            ),
    {
        let ghost p0 = self.pairs();
        let k = to_vec(self.entries[i].0.as_slice());
        self.entries.set(i, (k, value));
        assert(self.pairs() =~= p0.update(i as int, (p0[i as int].0, value)));
    }

    /// Distinct keys stay distinct when values change.
    pub proof fn lemma_wf_update(&self, other: &Self)
        requires
            self.wf(),
            other.pairs().len() == self.pairs().len(),
            forall|i: int| 0 <= i < self.pairs().len() ==> (#[trigger] other.pairs()[i]).0 == self.pairs()[i].0,
        ensures
            other.wf(),
    {
        assert forall|i: int, j: int| 0 <= i < j < other.pairs().len() implies other.pairs()[i].0
            != other.pairs()[j].0 by {
            assert(other.pairs()[i].0 == self.pairs()[i].0);
            assert(other.pairs()[j].0 == self.pairs()[j].0);
        }
    }
}

/// Changing every value with `f` changes the map's values the same way.
pub proof fn lemma_to_map_map_values<V>(s: Seq<(Seq<u8>, V)>, t: Seq<(Seq<u8>, V)>, f: spec_fn(V) -> V)
    requires
        s.len() == t.len(),
        forall|i: int| 0 <= i < s.len() ==> (#[trigger] t[i]) == (s[i].0, f(s[i].1)),
    ensures
        to_map(t) == Map::new(|k: Seq<u8>| to_map(s).contains_key(k), |k: Seq<u8>| f(to_map(s)[k])),
    decreases s.len(),
{
    if s.len() == 0 {
        assert(to_map(t) =~= Map::new(|k: Seq<u8>| to_map(s).contains_key(k), |k: Seq<u8>| f(to_map(s)[k])));
    } else {
        let s1 = s.drop_last();
        let t1 = t.drop_last();
        assert forall|i: int| 0 <= i < s1.len() implies (#[trigger] t1[i]) == (s1[i].0, f(s1[i].1)) by {
            assert(t1[i] == t[i] && s1[i] == s[i]);
        }
        lemma_to_map_map_values(s1, t1, f);
        assert(t.last() == (s.last().0, f(s.last().1)));
        assert(to_map(t) =~= Map::new(|k: Seq<u8>| to_map(s).contains_key(k), |k: Seq<u8>| f(to_map(s)[k])));
    }
}

} // verus!
