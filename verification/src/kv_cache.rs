//! Per-layer key/value cache storage. Each sequence position holds the
//! packed (quantised) key and value bytes; quantisation itself works on
//! floating point and happens outside the library.

use vstd::prelude::*;

verus! {

/// Packed key and value of one sequence position.
pub struct KVEntry {
    pub key_packed: Vec<u8>,
    pub value_packed: Vec<u8>,
}

/// The packed bytes of a position, if filled.
pub open spec fn entry_view(e: Option<KVEntry>) -> Option<(Seq<u8>, Seq<u8>)> {
    match e {
        Some(x) => Some((x.key_packed@, x.value_packed@)),
        None => None,
    }
}

/// KV cache for one attention layer.
pub struct LayerKVCache {
    max_seq: usize,
    kv_dim: usize,
    entries: Vec<Option<KVEntry>>,
    window_size: usize,
}

/// Mathematical model of a [`LayerKVCache`].
#[verifier::ext_equal]
pub struct LayerModel {
    pub max_seq: nat,
    pub kv_dim: nat,
    pub window_size: nat,
    pub entries: Seq<Option<(Seq<u8>, Seq<u8>)>>,
}

/// Positions that may be attended from `pos`: all earlier ones for full
/// attention, the last `window` positions (including `pos`) otherwise.
pub open spec fn spec_attention_range(window: nat, pos: nat) -> (nat, nat) {
    if window == 0 {
        (0, pos)
    } else if pos >= window {
        ((pos - window + 1) as nat, pos)
    } else {
        (0, pos)
    }
}

impl LayerKVCache {
    pub closed spec fn view(&self) -> LayerModel {
        LayerModel {
            max_seq: self.max_seq as nat,
            kv_dim: self.kv_dim as nat,
            window_size: self.window_size as nat,
            entries: self.entries@.map_values(|e: Option<KVEntry>| entry_view(e)),
        }
    }

    pub closed spec fn wf(&self) -> bool {
        self.entries@.len() == self.max_seq
    }

    /// An empty cache for `max_seq` positions (window 0 means full attention).
    pub fn new(max_seq: usize, kv_dim: usize, window_size: usize) -> (r: Self)
        ensures
            r.wf(),
            r@.max_seq == max_seq,
            r@.kv_dim == kv_dim,
            r@.window_size == window_size,
            r@.entries == Seq::new(max_seq as nat, |i: int| None::<(Seq<u8>, Seq<u8>)>),
    {
        let mut entries: Vec<Option<KVEntry>> = Vec::new();
        let mut i: usize = 0;
        while i < max_seq
            invariant
                0 <= i <= max_seq,
                entries@.len() == i,
                forall|k: int| 0 <= k < i ==> (#[trigger] entries@[k]) is None,
            decreases max_seq - i,
        {
            entries.push(None);
            i = i + 1;
        }
        let r = LayerKVCache { max_seq, kv_dim, entries, window_size };
        assert(r@.entries =~= Seq::new(max_seq as nat, |i: int| None::<(Seq<u8>, Seq<u8>)>));
        r
    }

    /// Stores packed bytes at a position; positions past the end are ignored.
    pub fn store_packed(&mut self, pos: usize, key_packed: Vec<u8>, value_packed: Vec<u8>)
        requires
            old(self).wf(),
        ensures
            final(self).wf(),
            final(self)@ == (if pos < old(self)@.max_seq {
                LayerModel {
                    entries: old(self)@.entries.update(
                        pos as int,
                        Some((key_packed@, value_packed@)),
                    ),
                    ..old(self)@
                }
            } else {
                old(self)@
            }),
    {
        if pos >= self.max_seq {
            return;
        }
        let ghost e0 = self@.entries;
        self.entries.set(pos, Some(KVEntry { key_packed, value_packed }));
        assert(self@.entries =~= e0.update(pos as int, Some((key_packed@, value_packed@))));
    }

    /// The packed key at a position, if filled.
    pub fn key_packed(&self, pos: usize) -> (r: Option<&[u8]>)
        requires
            self.wf(),
        ensures
            match r {
                Some(k) => pos < self@.max_seq && self@.entries[pos as int] == Some(
                    (k@, self@.entries[pos as int]->Some_0.1),
                ),
                None => pos >= self@.max_seq || self@.entries[pos as int] is None,
            },
    {
        if pos >= self.max_seq {
            return None;
        }
        match &self.entries[pos] {
            Some(e) => Some(e.key_packed.as_slice()),
            None => None,
        }
    }

    /// The packed value at a position, if filled.
    pub fn value_packed(&self, pos: usize) -> (r: Option<&[u8]>)
        requires
            self.wf(),
        ensures
            match r {
                Some(v) => pos < self@.max_seq && self@.entries[pos as int] == Some(
                    (self@.entries[pos as int]->Some_0.0, v@),
                ),
                None => pos >= self@.max_seq || self@.entries[pos as int] is None,
            },
    {
        if pos >= self.max_seq {
            return None;
        }
        match &self.entries[pos] {
            Some(e) => Some(e.value_packed.as_slice()),
            None => None,
        }
    }

    /// The KV dimension.
    pub fn kv_dim(&self) -> (r: usize)
        ensures
            r == self@.kv_dim,
    {
        self.kv_dim
    }

    /// The range of positions attended from `current_pos`.
    pub fn attention_range(&self, current_pos: usize) -> (r: (usize, usize))
        ensures
            (r.0 as nat, r.1 as nat) == spec_attention_range(
                self@.window_size,
                current_pos as nat,
            ),
    {
        if self.window_size == 0 {
            (0, current_pos)
        } else {
            let start = if current_pos >= self.window_size {
                current_pos - self.window_size + 1
            } else {
                0
            };
            (start, current_pos)
        }
    }

    /// Clears every position.
    pub fn reset(&mut self)
        requires
            old(self).wf(),
        ensures
            final(self).wf(),
            final(self)@ == (LayerModel {
                entries: Seq::new(old(self)@.max_seq, |i: int| None::<(Seq<u8>, Seq<u8>)>),
                ..old(self)@
            }),
    {
        let mut i: usize = 0;
        let n = self.entries.len();
        while i < n
            invariant
                0 <= i <= n,
                n == self.entries@.len(),
                n == self.max_seq,
                self.max_seq == old(self).max_seq,
                self.kv_dim == old(self).kv_dim,
                self.window_size == old(self).window_size,
                forall|k: int| 0 <= k < i ==> (#[trigger] self.entries@[k]) is None,
            decreases n - i,
        {
            self.entries.set(i, None);
            i = i + 1;
        }
        assert(self@.entries =~= Seq::new(old(self)@.max_seq, |i: int| None::<(Seq<u8>, Seq<u8>)>));
    }
}

/// Bytes held by the filled positions of one layer.
pub open spec fn layer_bytes(entries: Seq<Option<(Seq<u8>, Seq<u8>)>>) -> nat
    decreases entries.len(),
{
    if entries.len() == 0 {
        0
    } else {
        layer_bytes(entries.drop_last()) + match entries.last() {
            Some(e) => e.0.len() + e.1.len(),
            None => 0,
        }
    }
}

/// Bytes held by all layers.
pub open spec fn total_bytes(layers: Seq<LayerModel>) -> nat
    decreases layers.len(),
{
    if layers.len() == 0 {
        0
    } else {
        total_bytes(layers.drop_last()) + layer_bytes(layers.last().entries)
    }
}

proof fn lemma_layer_bytes_prefix(e: Seq<Option<(Seq<u8>, Seq<u8>)>>, k: int)
    requires
        0 <= k <= e.len(),
    ensures
        layer_bytes(e.subrange(0, k)) <= layer_bytes(e),
    decreases e.len() - k,
{
    if k < e.len() {
        assert(e.subrange(0, k + 1).drop_last() =~= e.subrange(0, k));
        lemma_layer_bytes_prefix(e, k + 1);
    } else {
        assert(e.subrange(0, k) =~= e);
    }
}

proof fn lemma_total_bytes_prefix(l: Seq<LayerModel>, k: int)
    requires
        0 <= k <= l.len(),
    ensures
        total_bytes(l.subrange(0, k)) <= total_bytes(l),
    decreases l.len() - k,
{
    if k < l.len() {
        assert(l.subrange(0, k + 1).drop_last() =~= l.subrange(0, k));
        lemma_total_bytes_prefix(l, k + 1);
    } else {
        assert(l.subrange(0, k) =~= l);
    }
}

/// A layer whose positions are all empty holds no bytes.
pub proof fn lemma_layer_bytes_empty(e: Seq<Option<(Seq<u8>, Seq<u8>)>>)
    requires
        forall|j: int| 0 <= j < e.len() ==> #[trigger] e[j] is None,
    ensures
        layer_bytes(e) == 0,
    decreases e.len(),
{
    if e.len() > 0 {
        assert(e.last() is None);
        lemma_layer_bytes_empty(e.drop_last());
    }
}

/// Layers whose positions are all empty hold no bytes: so a new or reset
/// cache, whose `new` and `reset` say so of every position, holds none.
pub proof fn lemma_total_bytes_empty(ls: Seq<LayerModel>)
    requires
        forall|i: int, j: int| 0 <= i < ls.len() && 0 <= j < ls[i].entries.len() ==> #[trigger] ls[i].entries[j] is None,
    ensures
        total_bytes(ls) == 0,
    decreases ls.len(),
{
    if ls.len() > 0 {
        let last = ls.last();
        assert forall|j: int| 0 <= j < last.entries.len() implies #[trigger] last.entries[j] is None by {
            assert(ls[ls.len() - 1].entries[j] is None);
        }
        lemma_layer_bytes_empty(last.entries);
        let rest = ls.drop_last();
        assert forall|i: int, j: int| 0 <= i < rest.len() && 0 <= j < rest[i].entries.len() implies #[trigger] rest[i].entries[j] is None by {
            assert(rest[i] == ls[i]);
        }
        lemma_total_bytes_empty(rest);
    }
}

/// KV cache for all layers.
pub struct QJLKVCache {
    pub layers: Vec<LayerKVCache>,
}

impl QJLKVCache {
    /// The models of the layers.
    pub open spec fn layers_view(&self) -> Seq<LayerModel> {
        self.layers@.map_values(|l: LayerKVCache| l@)
    }

    pub open spec fn wf(&self) -> bool {
        forall|i: int| 0 <= i < self.layers@.len() ==> (#[trigger] self.layers@[i]).wf()
    }

    /// A cache of `n_layers` layers with the given KV widths and windows.
    pub fn new(n_layers: usize, kv_dims: &[usize], window_sizes: &[usize], max_seq: usize) -> (r:
        Self)
        requires
            n_layers <= kv_dims@.len(),
            n_layers <= window_sizes@.len(),
        ensures
            r.wf(),
            r.layers_view().len() == n_layers,
            forall|i: int|
                0 <= i < n_layers ==> #[trigger] r.layers_view()[i] == (LayerModel {
                    max_seq: max_seq as nat,
                    kv_dim: kv_dims@[i] as nat,
                    window_size: window_sizes@[i] as nat,
                    entries: Seq::new(max_seq as nat, |j: int| None::<(Seq<u8>, Seq<u8>)>),
                }),
            total_bytes(r.layers_view()) == 0,
    {
        let mut layers: Vec<LayerKVCache> = Vec::new();
        let mut i: usize = 0;
        while i < n_layers
            invariant
                0 <= i <= n_layers,
                n_layers <= kv_dims@.len(),
                n_layers <= window_sizes@.len(),
                layers@.len() == i,
                forall|k: int| 0 <= k < i ==> (#[trigger] layers@[k]).wf(),
                forall|k: int|
                    0 <= k < i ==> #[trigger] layers@[k]@ == (LayerModel {
                        max_seq: max_seq as nat,
                        kv_dim: kv_dims@[k] as nat,
                        window_size: window_sizes@[k] as nat,
                        entries: Seq::new(max_seq as nat, |j: int| None::<(Seq<u8>, Seq<u8>)>),
                    }),
            decreases n_layers - i,
        {
            layers.push(LayerKVCache::new(max_seq, kv_dims[i], window_sizes[i]));
            i = i + 1;
        }
        let r = QJLKVCache { layers };
        proof {
            let lv = r.layers_view();
            assert forall|a: int, b: int| 0 <= a < lv.len() && 0 <= b < lv[a].entries.len() implies #[trigger] lv[a].entries[b] is None by {
                assert(lv[a] == r.layers@[a]@);
            }
            lemma_total_bytes_empty(lv);
        }
        r
    }

    /// Clears every layer.
    pub fn reset(&mut self)
        requires
            old(self).wf(),
        ensures
            final(self).wf(),
            final(self).layers_view().len() == old(self).layers_view().len(),
            forall|i: int|
                0 <= i < old(self).layers_view().len() ==> #[trigger] final(self).layers_view()[i]
                    == (LayerModel {
                    entries: Seq::new(
                        old(self).layers_view()[i].max_seq,
                        |j: int| None::<(Seq<u8>, Seq<u8>)>,
                    ),
                    ..old(self).layers_view()[i]
                }),
            total_bytes(final(self).layers_view()) == 0,
    {
        let n = self.layers.len();
        let mut i: usize = 0;
        let ghost l0 = self.layers_view();
        while i < n
            invariant
                0 <= i <= n,
                n == self.layers@.len(),
                l0 == old(self).layers_view(),
                forall|k: int| 0 <= k < n ==> (#[trigger] self.layers@[k]).wf(),
                forall|k: int|
                    0 <= k < i ==> #[trigger] self.layers@[k]@ == (LayerModel {
                        entries: Seq::new(l0[k].max_seq, |j: int| None::<(Seq<u8>, Seq<u8>)>),
                        ..l0[k]
                    }),
                forall|k: int| i <= k < n ==> #[trigger] self.layers@[k]@ == l0[k],
            decreases n - i,
        {
            let mut layer = self.layers.remove(i);
            layer.reset();
            self.layers.insert(i, layer);
            i = i + 1;
        }
        proof {
            let lv = self.layers_view();
            assert forall|a: int, b: int| 0 <= a < lv.len() && 0 <= b < lv[a].entries.len() implies #[trigger] lv[a].entries[b] is None by {
                assert(lv[a] == self.layers@[a]@);
            }
            lemma_total_bytes_empty(lv);
        }
    }

    /// Bytes held by the cache.
    pub fn memory_bytes(&self) -> (r: usize)
        requires
            total_bytes(self.layers_view()) <= usize::MAX,
        ensures
            r == total_bytes(self.layers_view()),
    {
        let mut total: usize = 0;
        let mut i: usize = 0;
        let ghost lv = self.layers_view();
        assert(lv.subrange(0, 0) =~= seq![]);
        while i < self.layers.len()
            invariant
                0 <= i <= self.layers@.len(),
                lv == self.layers_view(),
                total_bytes(lv) <= usize::MAX,
                total == total_bytes(lv.subrange(0, i as int)),
            decreases self.layers.len() - i,
        {
            let layer = &self.layers[i];
            let ghost ev = layer@.entries;
            assert(lv[i as int] == layer@);
            proof {
                lemma_total_bytes_prefix(lv, i + 1);
                assert(lv.subrange(0, i + 1).drop_last() =~= lv.subrange(0, i as int));
            }
            let mut j: usize = 0;
            let mut sub: usize = 0;
            assert(ev.subrange(0, 0) =~= seq![]);
            while j < layer.entries.len()
                invariant
                    0 <= j <= layer.entries@.len(),
                    ev == layer.entries@.map_values(|e: Option<KVEntry>| entry_view(e)),
                    total + layer_bytes(ev) <= usize::MAX,
                    sub == layer_bytes(ev.subrange(0, j as int)),
                decreases layer.entries.len() - j,
            {
                proof {
                    lemma_layer_bytes_prefix(ev, j + 1);
                    assert(ev.subrange(0, j + 1).drop_last() =~= ev.subrange(0, j as int));
                }
                match &layer.entries[j] {
                    Some(e) => {
                        sub = sub + e.key_packed.len() + e.value_packed.len();
                    },
                    None => {},
                }
                j = j + 1;
            }
            assert(ev.subrange(0, j as int) =~= ev);
            total = total + sub;
            i = i + 1;
        }
        assert(lv.subrange(0, i as int) =~= lv);
        total
    }
}

} // verus!
