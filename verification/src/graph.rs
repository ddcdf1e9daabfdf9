//! The temporal entity graph: `(entity_a, relation, entity_b)` triples
//! with validity windows, indexed by `(entity_a, relation)`. Invalidation
//! closes a triple's window; nothing is ever deleted.

use vstd::prelude::*;

use crate::json::{jentries, jget, jinsert, jparse, jviews, object_insert, parse_checked, str_at, JModel, JsonValue, PStep};
use crate::registry::{failure_model, success_model, ResultModel, ToolResult};
use crate::sysconfig::{bytes_less, bytes_lt, lemma_bytes_lt_irreflexive, lemma_bytes_lt_total, lemma_bytes_lt_trans};
use crate::web::{utrim, utrim_bytes};
use crate::text::{ascii_bytes, bytes_eq, is_utf8, lines, lit, push_all, split_first_line, to_vec};

verus! {

/// A triple with its validity window.
#[derive(Debug, Clone)]
pub struct Triple {
    pub entity_a: Vec<u8>,
    pub relation: Vec<u8>,
    pub entity_b: Vec<u8>,
    pub valid_from: Vec<u8>,
    pub valid_until: Option<Vec<u8>>,
}

/// Model of a triple.
pub struct TripleModel {
    pub a: Seq<u8>,
    pub r: Seq<u8>,
    pub b: Seq<u8>,
    pub from: Seq<u8>,
    pub until: Option<Seq<u8>>,
}

impl View for Triple {
    type V = TripleModel;

    open spec fn view(&self) -> TripleModel {
        TripleModel {
            a: self.entity_a@,
            r: self.relation@,
            b: self.entity_b@,
            from: self.valid_from@,
            until: match self.valid_until {
                Some(u) => Some(u@),
                None => None,
            },
        }
    }
}

impl Triple {
    /// Whether the triple still holds (its window is open).
    pub fn is_valid_now(&self) -> (r: bool)
        ensures
            r == self@.until is None,
    {
        self.valid_until.is_none()
    }

    pub fn duplicate(&self) -> (r: Triple)
        ensures
            r@ == self@,
    {
        Triple {
            entity_a: to_vec(self.entity_a.as_slice()),
            relation: to_vec(self.relation.as_slice()),
            entity_b: to_vec(self.entity_b.as_slice()),
            valid_from: to_vec(self.valid_from.as_slice()),
            valid_until: match &self.valid_until {
                Some(u) => Some(to_vec(u.as_slice())),
                None => None,
            },
        }
    }
}

/// Model of a list of triples.
pub open spec fn tviews(s: Seq<Triple>) -> Seq<TripleModel> {
    s.map_values(|t: Triple| t@)
}

/// Model of a list of triple references.
pub open spec fn rviews(s: Seq<&Triple>) -> Seq<TripleModel> {
    s.map_values(|t: &Triple| t@)
}

/// The order of index keys: by entity, then by relation.
pub open spec fn key_lt(x: (Seq<u8>, Seq<u8>), y: (Seq<u8>, Seq<u8>)) -> bool {
    bytes_lt(x.0, y.0) || (x.0 == y.0 && bytes_lt(x.1, y.1))
}

/// Model of the index: each key with its triples, in key order.
pub type GroupsModel = Seq<((Seq<u8>, Seq<u8>), Seq<TripleModel>)>;

/// The index after adding a triple under a key: appended to the key's
/// triples, or a new key in order.
pub open spec fn ginsert(g: GroupsModel, k: (Seq<u8>, Seq<u8>), t: TripleModel) -> GroupsModel
    decreases g.len(),
{
    if g.len() == 0 {
        seq![(k, seq![t])]
    } else if g[0].0 == k {
        seq![(k, g[0].1.push(t))] + g.drop_first()
    } else if key_lt(k, g[0].0) {
        seq![(k, seq![t])] + g
    } else {
        seq![g[0]] + ginsert(g.drop_first(), k, t)
    }
}

/// The triples that pass a filter, in order.
pub open spec fn keep(s: Seq<TripleModel>, f: spec_fn(TripleModel) -> bool) -> Seq<TripleModel>
    decreases s.len(),
{
    if s.len() == 0 {
        seq![]
    } else if f(s.last()) {
        keep(s.drop_last(), f).push(s.last())
    } else {
        keep(s.drop_last(), f)
    }
}

proof fn lemma_keep_passes(s: Seq<TripleModel>, f: spec_fn(TripleModel) -> bool)
    ensures
        forall|k: int| 0 <= k < keep(s, f).len() ==> f(#[trigger] keep(s, f)[k]),
    decreases s.len(),
{
    if s.len() > 0 {
        lemma_keep_passes(s.drop_last(), f);
        let p = keep(s.drop_last(), f);
        if f(s.last()) {
            assert forall|k: int| 0 <= k < p.push(s.last()).len() implies f(#[trigger] p.push(s.last())[k]) by {
                if k < p.len() {
                    assert(p.push(s.last())[k] == p[k]);
                }
            }
        }
    }
}

/// Every triple a lookup returns passes its filter.
proof fn lemma_forward_passes(g: GroupsModel, entity: Seq<u8>, f: spec_fn(TripleModel) -> bool)
    ensures
        forall|k: int| 0 <= k < forward(g, entity, f).len() ==> f(#[trigger] forward(g, entity, f)[k]),
    decreases g.len(),
{
    if g.len() > 0 {
        lemma_forward_passes(g.drop_last(), entity, f);
        let a = forward(g.drop_last(), entity, f);
        let b = if g.last().0.0 == entity { keep(g.last().1, f) } else { seq![] };
        lemma_keep_passes(g.last().1, f);
        assert forall|k: int| 0 <= k < (a + b).len() implies f(#[trigger] (a + b)[k]) by {
            if k < a.len() {
                assert((a + b)[k] == a[k]);
            } else {
                assert((a + b)[k] == b[k - a.len()]);
            }
        }
    }
}

/// A lookup as of a time returns only triples that held then: each started
/// at or before that time and, if its window was closed, closed after it.
pub proof fn lemma_as_of_held(g: GroupsModel, entity: Seq<u8>, as_of: Seq<u8>)
    ensures
        forall|k: int| 0 <= k < forward(g, entity, pick_fn(PickModel::HeldAt(as_of))).len() ==> {
            let t = #[trigger] forward(g, entity, pick_fn(PickModel::HeldAt(as_of)))[k];
            &&& !bytes_lt(as_of, t.from)
            &&& (t.until matches Some(u) ==> bytes_lt(as_of, u))
        },
{
    lemma_forward_passes(g, entity, pick_fn(PickModel::HeldAt(as_of)));
}

proof fn lemma_every_passes(g: GroupsModel, f: spec_fn(TripleModel) -> bool)
    ensures
        forall|k: int| 0 <= k < every(g, f).len() ==> f(#[trigger] every(g, f)[k]),
    decreases g.len(),
{
    if g.len() > 0 {
        lemma_every_passes(g.drop_last(), f);
        let a = every(g.drop_last(), f);
        let b = keep(g.last().1, f);
        lemma_keep_passes(g.last().1, f);
        assert forall|k: int| 0 <= k < (a + b).len() implies f(#[trigger] (a + b)[k]) by {
            if k < a.len() {
                assert((a + b)[k] == a[k]);
            } else {
                assert((a + b)[k] == b[k - a.len()]);
            }
        }
    }
}

/// What holds now about an entity is only open triples: those of it as
/// first entity with no end, then those with it as second entity and no end.
pub proof fn lemma_query_open(g: GroupsModel, entity: Seq<u8>)
    ensures
        forall|k: int| 0 <= k < query_spec(g, entity).len() ==> (#[trigger] query_spec(g, entity)[k]).until is None,
        forall|k: int| 0 <= k < every(g, pick_fn(PickModel::OpenTo(entity))).len()
            ==> (#[trigger] every(g, pick_fn(PickModel::OpenTo(entity)))[k]).b == entity,
{
    let a = forward(g, entity, pick_fn(PickModel::Open));
    let b = every(g, pick_fn(PickModel::OpenTo(entity)));
    lemma_forward_passes(g, entity, pick_fn(PickModel::Open));
    lemma_every_passes(g, pick_fn(PickModel::OpenTo(entity)));
    assert forall|k: int| 0 <= k < (a + b).len() implies (#[trigger] (a + b)[k]).until is None by {
        if k < a.len() {
            assert((a + b)[k] == a[k]);
            assert(pick_fn(PickModel::Open)(a[k]));
        } else {
            assert((a + b)[k] == b[k - a.len()]);
            assert(pick_fn(PickModel::OpenTo(entity))(b[k - a.len()]));
        }
    }
    assert forall|k: int| 0 <= k < b.len() implies (#[trigger] b[k]).b == entity by {
        assert(pick_fn(PickModel::OpenTo(entity))(b[k]));
    }
}

/// Which triples a lookup picks.
pub enum PickModel {
    Open,
    OpenTo(Seq<u8>),
    HeldAt(Seq<u8>),
    Any,
}

/// The filter of a pick.
pub open spec fn pick_fn(p: PickModel) -> spec_fn(TripleModel) -> bool {
    match p {
        PickModel::Open => |t: TripleModel| t.until is None,
        PickModel::OpenTo(b) => |t: TripleModel| t.b == b && t.until is None,
        PickModel::HeldAt(a) => |t: TripleModel| held_at(t, a),
        PickModel::Any => |t: TripleModel| true,
    }
}

/// Triples of the groups for `entity` as first entity, in index order,
/// that pass a filter.
pub open spec fn forward(g: GroupsModel, entity: Seq<u8>, f: spec_fn(TripleModel) -> bool) -> Seq<TripleModel>
    decreases g.len(),
{
    if g.len() == 0 {
        seq![]
    } else {
        forward(g.drop_last(), entity, f) + if g.last().0.0 == entity {
            keep(g.last().1, f)
        } else {
            seq![]
        }
    }
}

/// All triples in index order that pass a filter.
pub open spec fn every(g: GroupsModel, f: spec_fn(TripleModel) -> bool) -> Seq<TripleModel>
    decreases g.len(),
{
    if g.len() == 0 {
        seq![]
    } else {
        every(g.drop_last(), f) + keep(g.last().1, f)
    }
}

/// The triples that hold now about an entity: those where it is the first
/// entity, then those where it is the second.
pub open spec fn query_spec(g: GroupsModel, entity: Seq<u8>) -> Seq<TripleModel> {
    forward(g, entity, pick_fn(PickModel::Open)) + every(g, pick_fn(PickModel::OpenTo(entity)))
}

/// Whether a triple held at a time: it started no later, and had not ended.
pub open spec fn held_at(t: TripleModel, as_of: Seq<u8>) -> bool {
    !bytes_lt(as_of, t.from) && match t.until {
        Some(u) => bytes_lt(as_of, u),
        None => true,
    }
}

/// `x` placed into `s` after every triple that did not start later.
pub open spec fn ins_by_from(s: Seq<TripleModel>, x: TripleModel) -> Seq<TripleModel>
    decreases s.len(),
{
    if s.len() == 0 {
        seq![x]
    } else if bytes_lt(x.from, s.last().from) {
        ins_by_from(s.drop_last(), x).push(s.last())
    } else {
        s.push(x)
    }
}

/// Triples in start order; triples starting together keep their order.
pub open spec fn sort_by_from(s: Seq<TripleModel>) -> Seq<TripleModel>
    decreases s.len(),
{
    if s.len() == 0 {
        s
    } else {
        ins_by_from(sort_by_from(s.drop_last()), s.last())
    }
}

/// The index after closing the window of the first open triple to
/// `entity_b` under a key, if there is one.
pub open spec fn close_first(ts: Seq<TripleModel>, b: Seq<u8>, until: Seq<u8>) -> Option<Seq<TripleModel>>
    decreases ts.len(),
{
    if ts.len() == 0 {
        None
    } else if ts[0].b == b && ts[0].until is None {
        Some(ts.update(0, TripleModel { until: Some(until), ..ts[0] }))
    } else {
        match close_first(ts.drop_first(), b, until) {
            Some(rest) => Some(seq![ts[0]] + rest),
            None => None,
        }
    }
}

/// The index after invalidating `(a, r, b)` at a time, or `None` when no
/// such triple is open.
pub open spec fn invalidate_spec(g: GroupsModel, k: (Seq<u8>, Seq<u8>), b: Seq<u8>, until: Seq<u8>) -> Option<GroupsModel>
    decreases g.len(),
{
    if g.len() == 0 {
        None
    } else if g[0].0 == k {
        match close_first(g[0].1, b, until) {
            Some(ts) => Some(g.update(0, (k, ts))),
            None => None,
        }
    } else {
        match invalidate_spec(g.drop_first(), k, b, until) {
            Some(rest) => Some(seq![g[0]] + rest),
            None => None,
        }
    }
}

/// The temporal entity graph.
pub struct EntityGraph {
    index: Vec<((Vec<u8>, Vec<u8>), Vec<Triple>)>,
    count: usize,
}

/// Model of one index entry.
pub open spec fn group_view(e: ((Vec<u8>, Vec<u8>), Vec<Triple>)) -> ((Seq<u8>, Seq<u8>), Seq<TripleModel>) {
    ((e.0.0@, e.0.1@), tviews(e.1@))
}

impl EntityGraph {
    /// The index: keys in order with their triples.
    pub closed spec fn groups(&self) -> GroupsModel {
        self.index@.map_values(|e: ((Vec<u8>, Vec<u8>), Vec<Triple>)| group_view(e))
    }

    /// The number of triples ever added.
    pub closed spec fn count(&self) -> nat {
        self.count as nat
    }

    pub fn new() -> (r: Self)
        ensures
            r.groups() == GroupsModel::empty(),
            r.count() == 0,
    {
        let r = EntityGraph { index: Vec::new(), count: 0 };
        assert(r.groups() =~= GroupsModel::empty());
        r
    }

    /// Total triples (including invalidated ones).
    pub fn len(&self) -> (r: usize)
        ensures
            r == self.count(),
    {
        self.count
    }

    /// Files a triple under its key.
    fn insert_triple(&mut self, t: Triple)
        requires
            old(self).count() < usize::MAX,
        ensures
            final(self).groups() == ginsert(old(self).groups(), (t@.a, t@.r), t@),
            final(self).count() == old(self).count() + 1,
    {
        let ghost g0 = self.groups();
        let ghost k = (t@.a, t@.r);
        let ghost tm = t@;
        let n = self.index.len();
        let mut i: usize = 0;
        assert(g0.subrange(0, 0) + ginsert(g0.subrange(0, n as int), k, tm) =~= ginsert(g0, k, tm)) by {
            assert(g0.subrange(0, n as int) =~= g0);
        }
        while i < n
            invariant
                0 <= i <= n,
                n == self.index@.len(),
                g0 == self.groups(),
                self.index@ == old(self).index@,
                self.count == old(self).count,
                self.count < usize::MAX,
                k == (t@.a, t@.r),
                tm == t@,
                ginsert(g0, k, tm) == g0.subrange(0, i as int) + ginsert(g0.subrange(i as int, n as int), k, tm),
            decreases n - i,
        {
            let ghost rest = g0.subrange(i as int, n as int);
            assert(rest[0] == group_view(self.index@[i as int]));
            assert(rest.drop_first() =~= g0.subrange(i + 1, n as int));
            let same = bytes_eq(self.index[i].0.0.as_slice(), t.entity_a.as_slice()) && bytes_eq(
                self.index[i].0.1.as_slice(),
                t.relation.as_slice(),
            );
            if same {
                let mut entry = self.index.remove(i);
                let ghost before = entry.1@;
                entry.1.push(t);
                assert(tviews(entry.1@) =~= tviews(before).push(tm));
                self.index.insert(i, entry);
                proof {
                    assert(self.groups() =~= g0.subrange(0, i as int) + (seq![(k, rest[0].1.push(tm))] + rest.drop_first()));
                }
                self.count = self.count + 1;
                return;
            }
            let lt = bytes_less(t.entity_a.as_slice(), self.index[i].0.0.as_slice()) || (bytes_eq(
                t.entity_a.as_slice(),
                self.index[i].0.0.as_slice(),
            ) && bytes_less(t.relation.as_slice(), self.index[i].0.1.as_slice()));
            if lt {
                let key = (to_vec(t.entity_a.as_slice()), to_vec(t.relation.as_slice()));
                let mut ts: Vec<Triple> = Vec::new();
                ts.push(t);
                assert(tviews(ts@) =~= seq![tm]);
                self.index.insert(i, (key, ts));
                proof {
                    assert(self.groups() =~= g0.subrange(0, i as int) + (seq![(k, seq![tm])] + rest));
                }
                self.count = self.count + 1;
                return;
            }
            assert(g0.subrange(0, i as int) + (seq![rest[0]] + ginsert(rest.drop_first(), k, tm)) =~= g0.subrange(
                0,
                i + 1,
            ) + ginsert(g0.subrange(i + 1, n as int), k, tm));
            i = i + 1;
        }
        let key = (to_vec(t.entity_a.as_slice()), to_vec(t.relation.as_slice()));
        let mut ts: Vec<Triple> = Vec::new();
        ts.push(t);
        assert(tviews(ts@) =~= seq![tm]);
        self.index.push((key, ts));
        proof {
            assert(g0.subrange(i as int, n as int) =~= GroupsModel::empty());
            assert(self.groups() =~= g0 + seq![(k, seq![tm])]);
            assert(g0.subrange(0, i as int) =~= g0);
        }
        self.count = self.count + 1;
    }

    /// Adds a triple holding from `timestamp`.
    pub fn add(&mut self, entity_a: &[u8], relation: &[u8], entity_b: &[u8], timestamp: &[u8])
        requires
            old(self).count() < usize::MAX,
        ensures
            final(self).groups() == ginsert(
                old(self).groups(),
                (entity_a@, relation@),
                TripleModel { a: entity_a@, r: relation@, b: entity_b@, from: timestamp@, until: None },
            ),
            final(self).count() == old(self).count() + 1,
    {
        let t = Triple {
            entity_a: to_vec(entity_a),
            relation: to_vec(relation),
            entity_b: to_vec(entity_b),
            valid_from: to_vec(timestamp),
            valid_until: None,
        };
        self.insert_triple(t);
    }
}


enum Pick<'a> {
    Open,
    OpenTo(&'a [u8]),
    HeldAt(&'a [u8]),
    Any,
}

spec fn pick_view(p: Pick) -> PickModel {
    match p {
        Pick::Open => PickModel::Open,
        Pick::OpenTo(b) => PickModel::OpenTo(b@),
        Pick::HeldAt(a) => PickModel::HeldAt(a@),
        Pick::Any => PickModel::Any,
    }
}

fn picks(p: &Pick, t: &Triple) -> (r: bool)
    ensures
        r == (pick_fn(pick_view(*p)))(t@),
{
    match p {
        Pick::Open => t.valid_until.is_none(),
        Pick::OpenTo(b) => bytes_eq(t.entity_b.as_slice(), b) && t.valid_until.is_none(),
        Pick::HeldAt(a) => {
            let started = !bytes_less(a, t.valid_from.as_slice());
            let open = match &t.valid_until {
                Some(u) => bytes_less(a, u.as_slice()),
                None => true,
            };
            started && open
        },
        Pick::Any => true,
    }
}

fn collect<'a>(ts: &'a Vec<Triple>, p: &Pick, out: &mut Vec<&'a Triple>)
    ensures
        rviews(final(out)@) == rviews(old(out)@) + keep(tviews(ts@), pick_fn(pick_view(*p))),
{
    let ghost f = pick_fn(pick_view(*p));
    let ghost base = rviews(out@);
    let mut j: usize = 0;
    assert(tviews(ts@).subrange(0, 0) =~= Seq::<TripleModel>::empty());
    assert(base + keep(tviews(ts@).subrange(0, 0), f) =~= base);
    while j < ts.len()
        invariant
            0 <= j <= ts@.len(),
            f == pick_fn(pick_view(*p)),
            rviews(out@) == base + keep(tviews(ts@).subrange(0, j as int), f),
        decreases ts.len() - j,
    {
        let ghost sub = tviews(ts@).subrange(0, j + 1);
        assert(sub.drop_last() =~= tviews(ts@).subrange(0, j as int));
        assert(sub.last() == ts@[j as int]@);
        if picks(p, &ts[j]) {
            let ghost o0 = out@;
            out.push(&ts[j]);
            assert(rviews(out@) =~= rviews(o0).push(ts@[j as int]@));
        }
        j = j + 1;
    }
    assert(tviews(ts@).subrange(0, j as int) =~= tviews(ts@));
}

impl EntityGraph {
    fn forward_collect<'a>(&'a self, entity: &[u8], p: &Pick, out: &mut Vec<&'a Triple>)
        ensures
            rviews(final(out)@) == rviews(old(out)@) + forward(self.groups(), entity@, pick_fn(pick_view(*p))),
    {
        let ghost f = pick_fn(pick_view(*p));
        let ghost g = self.groups();
        let ghost base = rviews(out@);
        let mut i: usize = 0;
        assert(g.subrange(0, 0) =~= GroupsModel::empty());
        assert(base + forward(g.subrange(0, 0), entity@, f) =~= base);
        while i < self.index.len()
            invariant
                0 <= i <= self.index@.len(),
                g == self.groups(),
                f == pick_fn(pick_view(*p)),
                rviews(out@) == base + forward(g.subrange(0, i as int), entity@, f),
            decreases self.index.len() - i,
        {
            let ghost sub = g.subrange(0, i + 1);
            assert(sub.drop_last() =~= g.subrange(0, i as int));
            assert(sub.last() == group_view(self.index@[i as int]));
            if bytes_eq(self.index[i].0.0.as_slice(), entity) {
                collect(&self.index[i].1, p, out);
            } else {
                assert(forward(sub, entity@, f) =~= forward(g.subrange(0, i as int), entity@, f));
            }
            i = i + 1;
        }
        assert(g.subrange(0, i as int) =~= g);
    }

    /// The triples that hold now about an entity: those where it is the
    /// first entity (in index order), then those where it is the second.
    pub fn query(&self, entity: &[u8]) -> (r: Vec<&Triple>)
        ensures
            rviews(r@) == query_spec(self.groups(), entity@),
    {
        let mut out: Vec<&Triple> = Vec::new();
        assert(rviews(out@) =~= Seq::<TripleModel>::empty());
        self.forward_collect(entity, &Pick::Open, &mut out);
        let ghost g = self.groups();
        let ghost f = pick_fn(PickModel::OpenTo(entity@));
        let ghost base = rviews(out@);
        let p = Pick::OpenTo(entity);
        let mut i: usize = 0;
        assert(g.subrange(0, 0) =~= GroupsModel::empty());
        assert(base + every(g.subrange(0, 0), f) =~= base);
        while i < self.index.len()
            invariant
                0 <= i <= self.index@.len(),
                g == self.groups(),
                pick_view(p) == PickModel::OpenTo(entity@),
                f == pick_fn(PickModel::OpenTo(entity@)),
                rviews(out@) == base + every(g.subrange(0, i as int), f),
            decreases self.index.len() - i,
        {
            let ghost sub = g.subrange(0, i + 1);
            assert(sub.drop_last() =~= g.subrange(0, i as int));
            assert(sub.last() == group_view(self.index@[i as int]));
            collect(&self.index[i].1, &p, &mut out);
            i = i + 1;
        }
        assert(g.subrange(0, i as int) =~= g);
        out
    }

    /// The triples about an entity (as first entity) that held at a time;
    /// times are ISO 8601 text compared byte by byte.
    pub fn query_as_of(&self, entity: &[u8], as_of: &[u8]) -> (r: Vec<&Triple>)
        ensures
            rviews(r@) == forward(self.groups(), entity@, pick_fn(PickModel::HeldAt(as_of@))),
            forall|k: int| 0 <= k < r@.len() ==> {
                let t = #[trigger] rviews(r@)[k];
                &&& !bytes_lt(as_of@, t.from)
                &&& (t.until matches Some(u) ==> bytes_lt(as_of@, u))
            },
    {
        proof {
            lemma_as_of_held(self.groups(), entity@, as_of@);
        }
        let mut out: Vec<&Triple> = Vec::new();
        assert(rviews(out@) =~= Seq::<TripleModel>::empty());
        self.forward_collect(entity, &Pick::HeldAt(as_of), &mut out);
        out
    }

    /// Every triple about an entity (as first entity), in start order.
    pub fn timeline(&self, entity: &[u8]) -> (r: Vec<&Triple>)
        ensures
            rviews(r@) == sort_by_from(forward(self.groups(), entity@, pick_fn(PickModel::Any))),
            from_sorted(rviews(r@)),
            rviews(r@).to_multiset() == forward(self.groups(), entity@, pick_fn(PickModel::Any)).to_multiset(),
    {
        let mut out: Vec<&Triple> = Vec::new();
        assert(rviews(out@) =~= Seq::<TripleModel>::empty());
        self.forward_collect(entity, &Pick::Any, &mut out);
        sort_refs(&mut out);
        proof {
            lemma_timeline_sorted(forward(self.groups(), entity@, pick_fn(PickModel::Any)));
        }
        out
    }
}

proof fn lemma_ins_from_at(s: Seq<TripleModel>, x: TripleModel, j: int)
    requires
        0 <= j <= s.len(),
        forall|k: int| j <= k < s.len() ==> bytes_lt(x.from, #[trigger] s[k].from),
        j > 0 ==> !bytes_lt(x.from, s[j - 1].from),
    ensures
        ins_by_from(s, x) == s.subrange(0, j).push(x) + s.subrange(j, s.len() as int),
    decreases s.len(),
{
    if s.len() == 0 {
        assert(s.subrange(0, j).push(x) + s.subrange(j, s.len() as int) =~= seq![x]);
    } else if j == s.len() {
        assert(s.subrange(0, j).push(x) + s.subrange(j, s.len() as int) =~= s.push(x));
    } else {
        assert(bytes_lt(x.from, s[s.len() - 1].from));
        lemma_ins_from_at(s.drop_last(), x, j);
        assert(s.drop_last().subrange(0, j).push(x) + s.drop_last().subrange(j, s.len() - 1) + seq![s.last()]
            =~= s.subrange(0, j).push(x) + s.subrange(j, s.len() as int));
    }
}

proof fn lemma_ins_from_len(s: Seq<TripleModel>, x: TripleModel)
    ensures
        ins_by_from(s, x).len() == s.len() + 1,
    decreases s.len(),
{
    if s.len() > 0 && bytes_lt(x.from, s.last().from) {
        lemma_ins_from_len(s.drop_last(), x);
    }
}

proof fn lemma_sort_from_len(s: Seq<TripleModel>)
    ensures
        sort_by_from(s).len() == s.len(),
    decreases s.len(),
{
    if s.len() > 0 {
        lemma_sort_from_len(s.drop_last());
        lemma_ins_from_len(sort_by_from(s.drop_last()), s.last());
    }
}

/// Sorts triples by start time, keeping the order of equal starts.
fn sort_refs(v: &mut Vec<&Triple>)
    ensures
        rviews(final(v)@) == sort_by_from(rviews(old(v)@)),
{
    let ghost orig = rviews(v@);
    let n = v.len();
    let mut i: usize = 0;
    assert(orig.subrange(0, 0) =~= Seq::<TripleModel>::empty());
    assert(rviews(v@) =~= sort_by_from(orig.subrange(0, 0)) + orig.subrange(0, n as int));
    while i < n
        invariant
            0 <= i <= n,
            n == orig.len(),
            v@.len() == n,
            rviews(v@) == sort_by_from(orig.subrange(0, i as int)) + orig.subrange(i as int, n as int),
        decreases n - i,
    {
        let ghost sorted = sort_by_from(orig.subrange(0, i as int));
        proof {
            lemma_sort_from_len(orig.subrange(0, i as int));
        }
        let ghost v0 = rviews(v@);
        let x = v.remove(i);
        assert(x@ == v0[i as int]);
        assert(rviews(v@).subrange(0, i as int) =~= sorted) by {
            assert forall|k: int| 0 <= k < i implies rviews(v@)[k] == sorted[k] by {
                assert(v0[k] == sorted[k]);
            }
        }
        let mut j = i;
        while j > 0 && bytes_less(x.valid_from.as_slice(), v[j - 1].valid_from.as_slice())
            invariant
                0 <= j <= i,
                i < n,
                v@.len() == n - 1,
                rviews(v@).subrange(0, i as int) == sorted,
                forall|k: int| j <= k < i ==> bytes_lt(x@.from, #[trigger] sorted[k].from),
            decreases j,
        {
            assert(rviews(v@).subrange(0, i as int)[j - 1] == v@[j - 1]@);
            j = j - 1;
        }
        proof {
            if j > 0 {
                assert(rviews(v@).subrange(0, i as int)[j - 1] == v@[j - 1]@);
            }
            lemma_ins_from_at(sorted, x@, j as int);
        }
        let ghost before = rviews(v@);
        v.insert(j, x);
        proof {
            assert(orig.subrange(0, i + 1).drop_last() =~= orig.subrange(0, i as int));
            assert(orig.subrange(0, i + 1).last() == x@);
            assert(sort_by_from(orig.subrange(0, i + 1)) == ins_by_from(sorted, x@));
            assert(rviews(v@) =~= sort_by_from(orig.subrange(0, i + 1)) + orig.subrange(i + 1, n as int)) by {
                assert forall|k: int| 0 <= k < n implies rviews(v@)[k] == (sort_by_from(orig.subrange(0, i + 1))
                    + orig.subrange(i + 1, n as int))[k] by {
                    if k < j {
                        assert(rviews(v@)[k] == before[k]);
                    } else if k > j {
                        assert(rviews(v@)[k] == before[k - 1]);
                        if k - 1 >= i {
                            assert(before[k - 1] == v0[k]);
                        }
                    }
                }
            }
        }
        i = i + 1;
    }
    assert(orig.subrange(0, n as int) =~= orig);
}


proof fn lemma_close_first(ts: Seq<TripleModel>, b: Seq<u8>, u: Seq<u8>, j: int)
    requires
        0 <= j <= ts.len(),
        forall|k: int| 0 <= k < j ==> !((#[trigger] ts[k]).b == b && ts[k].until is None),
    ensures
        close_first(ts, b, u) == (match close_first(ts.subrange(j, ts.len() as int), b, u) {
            Some(rest) => Some(ts.subrange(0, j) + rest),
            None => None,
        }),
    decreases j,
{
    if j == 0 {
        assert(ts.subrange(0, ts.len() as int) =~= ts);
        if let Some(rest) = close_first(ts, b, u) {
            assert(ts.subrange(0, 0) + rest =~= rest);
        }
    } else {
        let t = ts.drop_first();
        assert forall|k: int| 0 <= k < j - 1 implies !((#[trigger] t[k]).b == b && t[k].until is None) by {
            assert(t[k] == ts[k + 1]);
        }
        lemma_close_first(t, b, u, j - 1);
        assert(t.subrange(j - 1, t.len() as int) =~= ts.subrange(j, ts.len() as int));
        if let Some(rest) = close_first(ts.subrange(j, ts.len() as int), b, u) {
            assert(seq![ts[0]] + (t.subrange(0, j - 1) + rest) =~= ts.subrange(0, j) + rest);
        }
    }
}

proof fn lemma_invalidate_at(g: GroupsModel, k: (Seq<u8>, Seq<u8>), b: Seq<u8>, u: Seq<u8>, i: int)
    requires
        0 <= i <= g.len(),
        forall|m: int| 0 <= m < i ==> (#[trigger] g[m]).0 != k,
    ensures
        invalidate_spec(g, k, b, u) == (match invalidate_spec(g.subrange(i, g.len() as int), k, b, u) {
            Some(rest) => Some(g.subrange(0, i) + rest),
            None => None,
        }),
    decreases i,
{
    if i == 0 {
        assert(g.subrange(0, g.len() as int) =~= g);
        if let Some(rest) = invalidate_spec(g, k, b, u) {
            assert(g.subrange(0, 0) + rest =~= rest);
        }
    } else {
        let t = g.drop_first();
        assert forall|m: int| 0 <= m < i - 1 implies (#[trigger] t[m]).0 != k by {
            assert(t[m] == g[m + 1]);
        }
        lemma_invalidate_at(t, k, b, u, i - 1);
        assert(t.subrange(i - 1, t.len() as int) =~= g.subrange(i, g.len() as int));
        if let Some(rest) = invalidate_spec(g.subrange(i, g.len() as int), k, b, u) {
            assert(seq![g[0]] + (t.subrange(0, i - 1) + rest) =~= g.subrange(0, i) + rest);
        }
    }
}

impl EntityGraph {
    /// Closes the window of the first open `(entity_a, relation,
    /// entity_b)` triple at `timestamp`; false when there is none.
    pub fn invalidate(&mut self, entity_a: &[u8], relation: &[u8], entity_b: &[u8], timestamp: &[u8]) -> (r: bool)
        ensures
            final(self).count() == old(self).count(),
            match invalidate_spec(old(self).groups(), (entity_a@, relation@), entity_b@, timestamp@) {
                Some(g) => r && final(self).groups() == g,
                None => !r && final(self).groups() == old(self).groups(),
            },
    {
        let ghost g0 = self.groups();
        let ghost k = (entity_a@, relation@);
        let n = self.index.len();
        let mut i: usize = 0;
        while i < n
            invariant
                0 <= i <= n,
                n == self.index@.len(),
                g0 == self.groups(),
                self.index@ == old(self).index@,
                self.count == old(self).count,
                k == (entity_a@, relation@),
                forall|m: int| 0 <= m < i ==> (#[trigger] g0[m]).0 != k,
            decreases n - i,
        {
            assert(g0[i as int] == group_view(self.index@[i as int]));
            if bytes_eq(self.index[i].0.0.as_slice(), entity_a) && bytes_eq(self.index[i].0.1.as_slice(), relation) {
                assert(g0[i as int].0 == k);
                proof {
                    lemma_invalidate_at(g0, k, entity_b@, timestamp@, i as int);
                }
                let ghost rest = g0.subrange(i as int, n as int);
                assert(rest[0] == g0[i as int]);
                let ghost ts = g0[i as int].1;
                let m = self.index[i].1.len();
                let mut j: usize = 0;
                while j < m
                    invariant
                        0 <= j <= m,
                        i < n,
                        n == self.index@.len(),
                        m == self.index@[i as int].1@.len(),
                        self.index@ == old(self).index@,
                        self.count == old(self).count,
                        k == (entity_a@, relation@),
                        g0[i as int].0 == k,
                        ts == g0[i as int].1,
                        rest == g0.subrange(i as int, n as int),
                        forall|mm: int| 0 <= mm < i ==> (#[trigger] g0[mm]).0 != k,
                        g0 == self.groups(),
                        forall|q: int| 0 <= q < j ==> !((#[trigger] ts[q]).b == entity_b@ && ts[q].until is None),
                    decreases m - j,
                {
                    assert(ts[j as int] == self.index@[i as int].1@[j as int]@);
                    if bytes_eq(self.index[i].1[j].entity_b.as_slice(), entity_b) && self.index[i].1[j].valid_until.is_none() {
                        proof {
                            lemma_close_first(ts, entity_b@, timestamp@, j as int);
                            lemma_invalidate_at(g0, k, entity_b@, timestamp@, i as int);
                        }
                        let ghost idx0 = self.index@;
                        let mut entry = self.index.remove(i);
                        let mut t = entry.1.remove(j);
                        t.valid_until = Some(to_vec(timestamp));
                        let ghost tm = t@;
                        entry.1.insert(j, t);
                        proof {
                            assert(tviews(entry.1@) =~= ts.update(j as int, tm));
                            assert(ts.subrange(j as int, ts.len() as int)[0] == ts[j as int]);
                            assert(ts.update(j as int, tm) =~= ts.subrange(0, j as int) + ts.subrange(j as int, ts.len() as int).update(0, tm));
                        }
                        let ghost ev = group_view(entry);
                        self.index.insert(i, entry);
                        proof {
                            assert(self.index@ =~= idx0.update(i as int, entry));
                            assert(ev == (k, ts.update(j as int, tm)));
                            assert(self.groups() =~= g0.update(i as int, (k, ts.update(j as int, tm))));
                            assert(g0.update(i as int, (k, ts.update(j as int, tm))) =~= g0.subrange(0, i as int) + rest.update(0, (k, ts.update(j as int, tm))));
                        }
                        return true;
                    }
                    j = j + 1;
                }
                proof {
                    lemma_invalidate_at(g0, k, entity_b@, timestamp@, i as int);
                    lemma_close_first(ts, entity_b@, timestamp@, m as int);
                    assert(ts.subrange(m as int, ts.len() as int) =~= Seq::<TripleModel>::empty());
                }
                return false;
            }
            i = i + 1;
        }
        proof {
            lemma_invalidate_at(g0, k, entity_b@, timestamp@, n as int);
            assert(g0.subrange(n as int, n as int) =~= GroupsModel::empty());
        }
        false
    }
}

/// The JSONL line of a triple, as stored in the palace.
pub open spec fn line_text(t: TripleModel) -> Seq<u8> {
    lit("{\"a\":\"") + t.a + lit("\",\"r\":\"") + t.r + lit("\",\"b\":\"") + t.b + lit("\",\"from\":\"") + t.from
        + lit("\",\"until\":") + match t.until {
        Some(u) => seq![34u8] + u + seq![34u8],
        None => lit("null"),
    } + seq![125u8]
}

impl Triple {
    /// The triple as one JSONL line (without the line break).
    pub fn to_json_line(&self) -> (r: Vec<u8>)
        ensures
            r@ == line_text(self@),
    {
        proof {
            reveal_strlit("{\"a\":\"");
            reveal_strlit("\",\"r\":\"");
            reveal_strlit("\",\"b\":\"");
            reveal_strlit("\",\"from\":\"");
            reveal_strlit("\",\"until\":");
            reveal_strlit("null");
        }
        let mut out = ascii_bytes("{\"a\":\"");
        push_all(&mut out, self.entity_a.as_slice());
        push_all(&mut out, ascii_bytes("\",\"r\":\"").as_slice());
        push_all(&mut out, self.relation.as_slice());
        push_all(&mut out, ascii_bytes("\",\"b\":\"").as_slice());
        push_all(&mut out, self.entity_b.as_slice());
        push_all(&mut out, ascii_bytes("\",\"from\":\"").as_slice());
        push_all(&mut out, self.valid_from.as_slice());
        push_all(&mut out, ascii_bytes("\",\"until\":").as_slice());
        match &self.valid_until {
            Some(u) => {
                out.push(34);
                push_all(&mut out, u.as_slice());
                out.push(34);
            },
            None => push_all(&mut out, ascii_bytes("null").as_slice()),
        }
        out.push(125);
        out
    }

    /// Reads a stored triple: `a`, `r`, `b` and `from` must be strings;
    /// `until` is kept when it is one.
    pub fn from_json(val: &JsonValue) -> (r: Option<Triple>)
        ensures
            match r {
                Some(t) => triple_of(val@) == Some(t@),
                None => triple_of(val@) is None,
            },
    {
        proof {
            reveal_strlit("a");
            reveal_strlit("r");
            reveal_strlit("b");
            reveal_strlit("from");
            reveal_strlit("until");
        }
        let a = match crate::json::get_str(val, ascii_bytes("a").as_slice()) {
            Some(x) => x,
            None => return None,
        };
        let r = match crate::json::get_str(val, ascii_bytes("r").as_slice()) {
            Some(x) => x,
            None => return None,
        };
        let b = match crate::json::get_str(val, ascii_bytes("b").as_slice()) {
            Some(x) => x,
            None => return None,
        };
        let from = match crate::json::get_str(val, ascii_bytes("from").as_slice()) {
            Some(x) => x,
            None => return None,
        };
        let until = crate::json::get_str(val, ascii_bytes("until").as_slice());
        Some(Triple { entity_a: a, relation: r, entity_b: b, valid_from: from, valid_until: until })
    }
}

/// The triple a stored JSON value holds.
pub open spec fn triple_of(v: JModel) -> Option<TripleModel> {
    match (str_at(v, lit("a")), str_at(v, lit("r")), str_at(v, lit("b")), str_at(v, lit("from"))) {
        (Some(a), Some(r), Some(b), Some(f)) => Some(TripleModel { a, r, b, from: f, until: str_at(v, lit("until")) }),
        _ => None,
    }
}

/// The stored form of triples: one line each.
pub open spec fn lines_text(ts: Seq<TripleModel>) -> Seq<u8>
    decreases ts.len(),
{
    if ts.len() == 0 {
        seq![]
    } else {
        lines_text(ts.drop_last()) + line_text(ts.last()) + seq![10u8]
    }
}

/// The stored form of an index: its groups' lines in key order.
pub open spec fn jsonl_text(g: GroupsModel) -> Seq<u8>
    decreases g.len(),
{
    if g.len() == 0 {
        seq![]
    } else {
        jsonl_text(g.drop_last()) + lines_text(g.last().1)
    }
}

/// The triple on a stored line, if it holds one.
pub open spec fn line_triple(l: Seq<u8>) -> Option<TripleModel> {
    let t = utrim(l);
    if t.len() == 0 {
        None
    } else {
        match jparse(t) {
            PStep::Done(v, _) => triple_of(v),
            _ => None,
        }
    }
}

/// The index after loading stored lines, in order.
pub open spec fn load_groups(g: GroupsModel, ls: Seq<Seq<u8>>) -> GroupsModel
    decreases ls.len(),
{
    if ls.len() == 0 {
        g
    } else {
        let g1 = load_groups(g, ls.drop_last());
        match line_triple(ls.last()) {
            Some(t) => ginsert(g1, (t.a, t.r), t),
            None => g1,
        }
    }
}

/// How many stored lines hold a triple.
pub open spec fn load_count(ls: Seq<Seq<u8>>) -> nat
    decreases ls.len(),
{
    if ls.len() == 0 {
        0
    } else {
        load_count(ls.drop_last()) + if line_triple(ls.last()) is Some {
            1nat
        } else {
            0nat
        }
    }
}

/// The text of a stored graph: its bytes when they are UTF-8.
pub open spec fn stored_text(data: Seq<u8>) -> Seq<u8> {
    if vstd::utf8::valid_utf8(data) {
        data
    } else {
        seq![]
    }
}

proof fn lemma_load_count_bound(ls: Seq<Seq<u8>>)
    ensures
        load_count(ls) <= ls.len(),
    decreases ls.len(),
{
    if ls.len() > 0 {
        lemma_load_count_bound(ls.drop_last());
    }
}

impl EntityGraph {
    /// The graph as stored: one JSONL line per triple, in key order.
    pub fn to_jsonl(&self) -> (r: Vec<u8>)
        ensures
            r@ == jsonl_text(self.groups()),
    {
        let ghost g = self.groups();
        let mut out: Vec<u8> = Vec::new();
        let mut i: usize = 0;
        assert(g.subrange(0, 0) =~= GroupsModel::empty());
        while i < self.index.len()
            invariant
                0 <= i <= self.index@.len(),
                g == self.groups(),
                out@ == jsonl_text(g.subrange(0, i as int)),
            decreases self.index.len() - i,
        {
            let ts = &self.index[i].1;
            let ghost tv = tviews(ts@);
            let ghost base = out@;
            let mut j: usize = 0;
            assert(tv.subrange(0, 0) =~= Seq::<TripleModel>::empty());
            assert(base + lines_text(tv.subrange(0, 0)) =~= base);
            while j < ts.len()
                invariant
                    0 <= j <= ts@.len(),
                    tv == tviews(ts@),
                    out@ == base + lines_text(tv.subrange(0, j as int)),
                decreases ts.len() - j,
            {
                let line = ts[j].to_json_line();
                push_all(&mut out, line.as_slice());
                out.push(10);
                proof {
                    assert(tv.subrange(0, j + 1).drop_last() =~= tv.subrange(0, j as int));
                    assert(tv.subrange(0, j + 1).last() == ts@[j as int]@);
                }
                j = j + 1;
            }
            proof {
                assert(tv.subrange(0, j as int) =~= tv);
                assert(g.subrange(0, i + 1).drop_last() =~= g.subrange(0, i as int));
                assert(g.subrange(0, i + 1).last() == group_view(self.index@[i as int]));
            }
            i = i + 1;
        }
        assert(g.subrange(0, i as int) =~= g);
        out
    }

    /// Loads stored triples (lines that hold none are passed over; text
    /// that is not UTF-8 holds none).
    pub fn load(&mut self, data: &[u8])
        requires
            old(self).count() + data@.len() <= usize::MAX,
        ensures
            final(self).groups() == load_groups(old(self).groups(), lines(stored_text(data@))),
            final(self).count() == old(self).count() + load_count(lines(stored_text(data@))),
    {
        let empty: &[u8] = vstd::slice::slice_subrange(data, 0, 0);
        let text: &[u8] = if is_utf8(data) {
            data
        } else {
            empty
        };
        assert(text@ == stored_text(data@));
        proof {
            crate::text::lemma_lines_len(text@);
        }
        let ghost all = lines(text@);
        let ghost g0 = self.groups();
        let ghost c0 = self.count();
        let ghost mut seen: Seq<Seq<u8>> = seq![];
        let mut rest = text;
        assert(all =~= seen + lines(rest@));
        while rest.len() > 0
            invariant
                all == lines(text@),
                all == seen + lines(rest@),
                all.len() <= data@.len(),
                c0 + data@.len() <= usize::MAX,
                self.groups() == load_groups(g0, seen),
                self.count() == c0 + load_count(seen),
            decreases rest@.len(),
        {
            let (line, next) = split_first_line(rest);
            let ghost s1 = seen.push(line@);
            assert(s1.drop_last() =~= seen);
            assert(s1.last() == line@);
            assert(all =~= s1 + lines(next@));
            proof {
                lemma_load_count_bound(seen);
                assert(seen.len() < all.len());
            }
            let t = utrim_bytes(line);
            if t.len() > 0 {
                match parse_checked(t) {
                    Some(Ok(v)) => match Triple::from_json(&v) {
                        Some(tr) => {
                            self.insert_triple(tr);
                        },
                        None => {},
                    },
                    _ => {},
                }
            }
            proof {
                seen = s1;
            }
            rest = next;
        }
        assert(lines(rest@) =~= seq![]);
        assert(seen + seq![] =~= seen);
    }
}

/// The `(a, r, b)` text of a triple.
pub open spec fn triple_label(a: Seq<u8>, r: Seq<u8>, b: Seq<u8>) -> Seq<u8> {
    seq![40u8] + a + lit(", ") + r + lit(", ") + b + seq![41u8]
}

/// A string argument.
fn arg<'a>(args: &'a JsonValue, key: &str) -> (r: Option<&'a [u8]>)
    requires
        key.is_ascii(),
    ensures
        match r {
            Some(s) => str_at(args@, lit(key)) == Some(s@),
            None => str_at(args@, lit(key)) is None,
        },
{
    match args.get(ascii_bytes(key).as_slice()) {
        Some(v) => v.as_str(),
        None => None,
    }
}

fn missing(call_id: &[u8], message: &str) -> (r: ToolResult)
    requires
        message.is_ascii(),
    ensures
        r@ == failure_model(call_id@, lit("invalid_args"), lit(message), false),
{
    proof {
        reveal_strlit("invalid_args");
    }
    ToolResult::failure(call_id, ascii_bytes("invalid_args").as_slice(), ascii_bytes(message).as_slice(), false)
}

/// `memory.graph_add`: adds `(entity_a, relation, entity_b)` from now on.
pub fn tool_graph_add(args: &JsonValue, call_id: &[u8], timestamp: &[u8], graph: &mut EntityGraph) -> (r: ToolResult)
    requires
        old(graph).count() < usize::MAX,
    ensures
        match (str_at(args@, lit("entity_a")), str_at(args@, lit("relation")), str_at(args@, lit("entity_b"))) {
            (Some(a), Some(rel), Some(b)) => {
                &&& final(graph).groups() == ginsert(old(graph).groups(), (a, rel), TripleModel { a, r: rel, b, from: timestamp@, until: None })
                &&& final(graph).count() == old(graph).count() + 1
                &&& r@ == success_model(call_id@, JModel::Object(jinsert(jinsert(seq![], lit("added"), JModel::Bool(true)), lit("triple"), JModel::Str(triple_label(a, rel, b)))), 0)
            },
            (None, _, _) => r@ == failure_model(call_id@, lit("invalid_args"), lit("missing 'entity_a'"), false) && final(graph).groups() == old(graph).groups() && final(graph).count() == old(graph).count(),
            (_, None, _) => r@ == failure_model(call_id@, lit("invalid_args"), lit("missing 'relation'"), false) && final(graph).groups() == old(graph).groups() && final(graph).count() == old(graph).count(),
            (_, _, None) => r@ == failure_model(call_id@, lit("invalid_args"), lit("missing 'entity_b'"), false) && final(graph).groups() == old(graph).groups() && final(graph).count() == old(graph).count(),
        },
{
    proof {
        reveal_strlit("missing 'entity_a'");
        reveal_strlit("missing 'relation'");
        reveal_strlit("missing 'entity_b'");
        reveal_strlit("entity_a");
        reveal_strlit("relation");
        reveal_strlit("entity_b");
        reveal_strlit("added");
        reveal_strlit("triple");
        reveal_strlit(", ");
    }
    let a = match arg(args, "entity_a") {
        Some(v) => v,
        None => return missing(call_id, "missing 'entity_a'"),
    };
    let r = match arg(args, "relation") {
        Some(v) => v,
        None => return missing(call_id, "missing 'relation'"),
    };
    let b = match arg(args, "entity_b") {
        Some(v) => v,
        None => return missing(call_id, "missing 'entity_b'"),
    };
    graph.add(a, r, b, timestamp);
    let mut label: Vec<u8> = Vec::new();
    label.push(40);
    push_all(&mut label, a);
    push_all(&mut label, ascii_bytes(", ").as_slice());
    push_all(&mut label, r);
    push_all(&mut label, ascii_bytes(", ").as_slice());
    push_all(&mut label, b);
    label.push(41);
    assert(label@ =~= triple_label(a@, r@, b@));
    let ghost lv = label@;
    let mut m: Vec<(Vec<u8>, JsonValue)> = Vec::new();
    assert(jentries(m@) =~= seq![]);
    object_insert(&mut m, ascii_bytes("added"), JsonValue::Bool(true));
    object_insert(&mut m, ascii_bytes("triple"), JsonValue::Str(label));
    assert(jentries(m@) == jinsert(jinsert(seq![], lit("added"), JModel::Bool(true)), lit("triple"), JModel::Str(lv)));
    ToolResult::success(call_id, JsonValue::Object(m), 0)
}

/// The JSON of a triple in a query result.
pub open spec fn triple_json(t: TripleModel) -> JModel {
    JModel::Object(
        jinsert(
            jinsert(
                jinsert(jinsert(seq![], lit("entity_a"), JModel::Str(t.a)), lit("relation"), JModel::Str(t.r)),
                lit("entity_b"),
                JModel::Str(t.b),
            ),
            lit("valid_from"),
            JModel::Str(t.from),
        ),
    )
}

/// The JSON of a triple in a timeline: with `valid_until` when closed.
pub open spec fn timeline_json(t: TripleModel) -> JModel {
    match t.until {
        Some(u) => JModel::Object(jinsert(triple_json(t)->Object_0, lit("valid_until"), JModel::Str(u))),
        None => triple_json(t),
    }
}

fn triple_entry(t: &Triple, with_until: bool) -> (r: JsonValue)
    ensures
        r@ == (if with_until {
            timeline_json(t@)
        } else {
            triple_json(t@)
        }),
{
    proof {
        reveal_strlit("entity_a");
        reveal_strlit("relation");
        reveal_strlit("entity_b");
        reveal_strlit("valid_from");
        reveal_strlit("valid_until");
    }
    let mut m: Vec<(Vec<u8>, JsonValue)> = Vec::new();
    assert(jentries(m@) =~= seq![]);
    object_insert(&mut m, ascii_bytes("entity_a"), JsonValue::Str(to_vec(t.entity_a.as_slice())));
    object_insert(&mut m, ascii_bytes("relation"), JsonValue::Str(to_vec(t.relation.as_slice())));
    object_insert(&mut m, ascii_bytes("entity_b"), JsonValue::Str(to_vec(t.entity_b.as_slice())));
    object_insert(&mut m, ascii_bytes("valid_from"), JsonValue::Str(to_vec(t.valid_from.as_slice())));
    if with_until {
        match &t.valid_until {
            Some(u) => object_insert(&mut m, ascii_bytes("valid_until"), JsonValue::Str(to_vec(u.as_slice()))),
            None => {},
        }
    }
    JsonValue::Object(m)
}

fn entries_of(ts: &Vec<&Triple>, with_until: bool) -> (r: Vec<JsonValue>)
    ensures
        jviews(r@) == rviews(ts@).map_values(|t: TripleModel| if with_until {
            timeline_json(t)
        } else {
            triple_json(t)
        }),
{
    let ghost f = |t: TripleModel| if with_until {
        timeline_json(t)
    } else {
        triple_json(t)
    };
    let mut out: Vec<JsonValue> = Vec::new();
    let mut i: usize = 0;
    assert(jviews(out@) =~= rviews(ts@).subrange(0, 0).map_values(f));
    while i < ts.len()
        invariant
            0 <= i <= ts@.len(),
            f == (|t: TripleModel| if with_until {
                timeline_json(t)
            } else {
                triple_json(t)
            }),
            jviews(out@) == rviews(ts@).subrange(0, i as int).map_values(f),
        decreases ts.len() - i,
    {
        let ghost o0 = out@;
        let e = triple_entry(ts[i], with_until);
        out.push(e);
        assert(out@.drop_last() =~= o0);
        assert(rviews(ts@).subrange(0, i + 1).map_values(f) =~= rviews(ts@).subrange(0, i as int).map_values(f).push(f(ts@[i as int]@)));
        i = i + 1;
    }
    assert(rviews(ts@).subrange(0, i as int) =~= rviews(ts@));
    out
}

/// `memory.graph_query`: the triples that hold about an entity now, or
/// that held at `as_of`.
pub fn tool_graph_query(args: &JsonValue, call_id: &[u8], graph: &EntityGraph) -> (r: ToolResult)
    ensures
        match str_at(args@, lit("entity")) {
            None => r@ == failure_model(call_id@, lit("invalid_args"), lit("missing 'entity'"), false),
            Some(e) => r@ == success_model(
                call_id@,
                JModel::Array(
                    (match str_at(args@, lit("as_of")) {
                        Some(t) => forward(graph.groups(), e, pick_fn(PickModel::HeldAt(t))),
                        None => query_spec(graph.groups(), e),
                    }).map_values(|t: TripleModel| triple_json(t)),
                ),
                0,
            ),
        },
{
    proof {
        reveal_strlit("missing 'entity'");
        reveal_strlit("entity");
        reveal_strlit("as_of");
    }
    let entity = match arg(args, "entity") {
        Some(v) => v,
        None => return missing(call_id, "missing 'entity'"),
    };
    let results = match arg(args, "as_of") {
        Some(t) => graph.query_as_of(entity, t),
        None => graph.query(entity),
    };
    let arr = entries_of(&results, false);
    assert(jviews(arr@) =~= rviews(results@).map_values(|t: TripleModel| triple_json(t)));
    ToolResult::success(call_id, JsonValue::Array(arr), 0)
}

/// `memory.graph_invalidate`: closes a triple's window now.
pub fn tool_graph_invalidate(args: &JsonValue, call_id: &[u8], timestamp: &[u8], graph: &mut EntityGraph) -> (r: ToolResult)
    ensures
        final(graph).count() == old(graph).count(),
        match (str_at(args@, lit("entity_a")), str_at(args@, lit("relation")), str_at(args@, lit("entity_b"))) {
            (Some(a), Some(rel), Some(b)) => match invalidate_spec(old(graph).groups(), (a, rel), b, timestamp@) {
                Some(g) => final(graph).groups() == g && r@ == success_model(call_id@, JModel::Object(jinsert(seq![], lit("invalidated"), JModel::Bool(true))), 0),
                None => final(graph).groups() == old(graph).groups() && r@ == failure_model(call_id@, lit("not_found"), lit("no matching active triple found"), false),
            },
            (None, _, _) => r@ == failure_model(call_id@, lit("invalid_args"), lit("missing 'entity_a'"), false) && final(graph).groups() == old(graph).groups(),
            (_, None, _) => r@ == failure_model(call_id@, lit("invalid_args"), lit("missing 'relation'"), false) && final(graph).groups() == old(graph).groups(),
            (_, _, None) => r@ == failure_model(call_id@, lit("invalid_args"), lit("missing 'entity_b'"), false) && final(graph).groups() == old(graph).groups(),
        },
{
    proof {
        reveal_strlit("missing 'entity_a'");
        reveal_strlit("missing 'relation'");
        reveal_strlit("missing 'entity_b'");
        reveal_strlit("entity_a");
        reveal_strlit("relation");
        reveal_strlit("entity_b");
        reveal_strlit("invalidated");
        reveal_strlit("not_found");
        reveal_strlit("no matching active triple found");
    }
    let a = match arg(args, "entity_a") {
        Some(v) => v,
        None => return missing(call_id, "missing 'entity_a'"),
    };
    let r = match arg(args, "relation") {
        Some(v) => v,
        None => return missing(call_id, "missing 'relation'"),
    };
    let b = match arg(args, "entity_b") {
        Some(v) => v,
        None => return missing(call_id, "missing 'entity_b'"),
    };
    if graph.invalidate(a, r, b, timestamp) {
        let mut m: Vec<(Vec<u8>, JsonValue)> = Vec::new();
        assert(jentries(m@) =~= seq![]);
        object_insert(&mut m, ascii_bytes("invalidated"), JsonValue::Bool(true));
        ToolResult::success(call_id, JsonValue::Object(m), 0)
    } else {
        ToolResult::failure(
            call_id,
            ascii_bytes("not_found").as_slice(),
            ascii_bytes("no matching active triple found").as_slice(),
            false,
        )
    }
}

/// `memory.graph_timeline`: every triple about an entity in start order.
pub fn tool_graph_timeline(args: &JsonValue, call_id: &[u8], graph: &EntityGraph) -> (r: ToolResult)
    ensures
        match str_at(args@, lit("entity")) {
            None => r@ == failure_model(call_id@, lit("invalid_args"), lit("missing 'entity'"), false),
            Some(e) => r@ == success_model(
                call_id@,
                JModel::Array(
                    sort_by_from(forward(graph.groups(), e, pick_fn(PickModel::Any))).map_values(|t: TripleModel| timeline_json(t)),
                ),
                0,
            ),
        },
{
    proof {
        reveal_strlit("missing 'entity'");
        reveal_strlit("entity");
        reveal_strlit("as_of");
    }
    let entity = match arg(args, "entity") {
        Some(v) => v,
        None => return missing(call_id, "missing 'entity'"),
    };
    let results = graph.timeline(entity);
    let arr = entries_of(&results, true);
    assert(jviews(arr@) =~= rviews(results@).map_values(|t: TripleModel| timeline_json(t)));
    ToolResult::success(call_id, JsonValue::Array(arr), 0)
}

proof fn lemma_keep_concat(s1: Seq<TripleModel>, s2: Seq<TripleModel>, f: spec_fn(TripleModel) -> bool)
    ensures
        keep(s1 + s2, f) == keep(s1, f) + keep(s2, f),
    decreases s2.len(),
{
    if s2.len() == 0 {
        assert(s1 + s2 =~= s1);
        assert(keep(s1, f) + keep(s2, f) =~= keep(s1, f));
    } else {
        assert((s1 + s2).drop_last() =~= s1 + s2.drop_last());
        assert((s1 + s2).last() == s2.last());
        lemma_keep_concat(s1, s2.drop_last(), f);
        if f(s2.last()) {
            assert(keep(s1, f) + keep(s2.drop_last(), f).push(s2.last()) =~= (keep(s1, f) + keep(s2.drop_last(), f)).push(s2.last()));
        }
    }
}

proof fn lemma_every_concat(g1: GroupsModel, g2: GroupsModel, f: spec_fn(TripleModel) -> bool)
    ensures
        every(g1 + g2, f) == every(g1, f) + every(g2, f),
    decreases g2.len(),
{
    if g2.len() == 0 {
        assert(g1 + g2 =~= g1);
        assert(every(g1, f) + every(g2, f) =~= every(g1, f));
    } else {
        assert((g1 + g2).drop_last() =~= g1 + g2.drop_last());
        assert((g1 + g2).last() == g2.last());
        lemma_every_concat(g1, g2.drop_last(), f);
        assert(every(g1, f) + every(g2.drop_last(), f) + keep(g2.last().1, f) =~= every(g1, f) + (every(g2.drop_last(), f) + keep(g2.last().1, f)));
    }
}

proof fn lemma_forward_concat(g1: GroupsModel, g2: GroupsModel, e: Seq<u8>, f: spec_fn(TripleModel) -> bool)
    ensures
        forward(g1 + g2, e, f) == forward(g1, e, f) + forward(g2, e, f),
    decreases g2.len(),
{
    if g2.len() == 0 {
        assert(g1 + g2 =~= g1);
        assert(forward(g1, e, f) + forward(g2, e, f) =~= forward(g1, e, f));
    } else {
        assert((g1 + g2).drop_last() =~= g1 + g2.drop_last());
        assert((g1 + g2).last() == g2.last());
        lemma_forward_concat(g1, g2.drop_last(), e, f);
        let tail = if g2.last().0.0 == e {
            keep(g2.last().1, f)
        } else {
            seq![]
        };
        assert(forward(g1, e, f) + forward(g2.drop_last(), e, f) + tail =~= forward(g1, e, f) + (forward(g2.drop_last(), e, f) + tail));
    }
}

/// A one-group index holds the filtered triples of that group.
proof fn lemma_every_single(k: (Seq<u8>, Seq<u8>), ts: Seq<TripleModel>, f: spec_fn(TripleModel) -> bool)
    ensures
        every(seq![(k, ts)], f) == keep(ts, f),
        forward(seq![(k, ts)], k.0, f) == keep(ts, f),
{
    let g = seq![(k, ts)];
    assert(g.drop_last() =~= GroupsModel::empty());
    assert(every(GroupsModel::empty(), f) =~= seq![]);
    assert(forward(GroupsModel::empty(), k.0, f) =~= seq![]);
    assert(seq![] + keep(ts, f) =~= keep(ts, f));
}

proof fn lemma_close_first_counts(ts: Seq<TripleModel>, b: Seq<u8>, u: Seq<u8>, f: spec_fn(TripleModel) -> bool)
    requires
        close_first(ts, b, u) is Some,
    ensures
        close_first(ts, b, u)->0.len() == ts.len(),
        (forall|t: TripleModel| #[trigger] f(t) ==> t.until is None) && (forall|t: TripleModel| t.b == b && t.until is None ==> #[trigger] f(t))
            ==> keep(close_first(ts, b, u)->0, f).len() + 1 == keep(ts, f).len(),
        (forall|t: TripleModel| #[trigger] f(t)) ==> keep(close_first(ts, b, u)->0, f).len() == keep(ts, f).len(),
    decreases ts.len(),
{
    let ts2 = close_first(ts, b, u)->0;
    let head = seq![ts[0]];
    let rest = ts.drop_first();
    assert(ts =~= head + rest);
    lemma_keep_concat(head, rest, f);
    assert(head.drop_last() =~= Seq::<TripleModel>::empty());
    if ts[0].b == b && ts[0].until is None {
        let closed = TripleModel { until: Some(u), ..ts[0] };
        let h2 = seq![closed];
        assert(ts2 =~= h2 + rest);
        lemma_keep_concat(h2, rest, f);
        assert(h2.drop_last() =~= Seq::<TripleModel>::empty());
    } else {
        lemma_close_first_counts(rest, b, u, f);
        let r2 = close_first(rest, b, u)->0;
        assert(ts2 =~= head + r2);
        lemma_keep_concat(head, r2, f);
    }
}

/// Invalidating closes exactly one open triple and removes none: the
/// graph holds one open triple fewer, one open triple to `entity_b`
/// fewer, and as many triples as before.
pub proof fn lemma_invalidate_closes_one(g: GroupsModel, k: (Seq<u8>, Seq<u8>), b: Seq<u8>, u: Seq<u8>)
    requires
        invalidate_spec(g, k, b, u) is Some,
    ensures
        every(invalidate_spec(g, k, b, u)->0, pick_fn(PickModel::Open)).len() + 1 == every(g, pick_fn(PickModel::Open)).len(),
        every(invalidate_spec(g, k, b, u)->0, pick_fn(PickModel::OpenTo(b))).len() + 1 == every(g, pick_fn(PickModel::OpenTo(b))).len(),
        every(invalidate_spec(g, k, b, u)->0, pick_fn(PickModel::Any)).len() == every(g, pick_fn(PickModel::Any)).len(),
    decreases g.len(),
{
    let g2 = invalidate_spec(g, k, b, u)->0;
    let head = seq![g[0]];
    let rest = g.drop_first();
    assert(g =~= head + rest);
    let fo = pick_fn(PickModel::Open);
    let fb = pick_fn(PickModel::OpenTo(b));
    let fa = pick_fn(PickModel::Any);
    lemma_every_concat(head, rest, fo);
    lemma_every_concat(head, rest, fb);
    lemma_every_concat(head, rest, fa);
    lemma_every_single(g[0].0, g[0].1, fo);
    lemma_every_single(g[0].0, g[0].1, fb);
    lemma_every_single(g[0].0, g[0].1, fa);
    if g[0].0 == k {
        let ts2 = close_first(g[0].1, b, u)->0;
        let h2 = seq![(k, ts2)];
        assert(g2 =~= h2 + rest);
        lemma_every_concat(h2, rest, fo);
        lemma_every_concat(h2, rest, fb);
        lemma_every_concat(h2, rest, fa);
        lemma_every_single(k, ts2, fo);
        lemma_every_single(k, ts2, fb);
        lemma_every_single(k, ts2, fa);
        lemma_close_first_counts(g[0].1, b, u, fo);
        lemma_close_first_counts(g[0].1, b, u, fb);
        lemma_close_first_counts(g[0].1, b, u, fa);
    } else {
        lemma_invalidate_closes_one(rest, k, b, u);
        let r2 = invalidate_spec(rest, k, b, u)->0;
        assert(g2 =~= head + r2);
        lemma_every_concat(head, r2, fo);
        lemma_every_concat(head, r2, fb);
        lemma_every_concat(head, r2, fa);
    }
}

/// Whether no triple starts before one listed ahead of it.
pub open spec fn from_sorted(s: Seq<TripleModel>) -> bool {
    forall|i: int, j: int| 0 <= i < j < s.len() ==> !bytes_lt(#[trigger] s[j].from, #[trigger] s[i].from)
}

proof fn lemma_ins_sorted(s: Seq<TripleModel>, x: TripleModel)
    requires
        from_sorted(s),
    ensures
        from_sorted(ins_by_from(s, x)),
        ins_by_from(s, x).to_multiset() =~= s.to_multiset().insert(x),
        forall|i: int| 0 <= i < ins_by_from(s, x).len() ==> #[trigger] ins_by_from(s, x)[i] == x || s.contains(ins_by_from(s, x)[i]),
    decreases s.len(),
{
    broadcast use vstd::seq_lib::group_to_multiset_ensures;
    lemma_ins_from_len(s, x);
    if s.len() == 0 {
        assert(seq![x] =~= Seq::<TripleModel>::empty().push(x));
    } else {
        let l = s.last();
        let sp = s.drop_last();
        assert(s =~= sp.push(l));
        if bytes_lt(x.from, l.from) {
            assert(from_sorted(sp));
            lemma_ins_sorted(sp, x);
            lemma_ins_from_len(sp, x);
            let q = ins_by_from(sp, x);
            let r = q.push(l);
            assert(r == ins_by_from(s, x));
            assert forall|i: int| 0 <= i < r.len() - 1 implies !bytes_lt(l.from, #[trigger] r[i].from) by {
                assert(r[i] == q[i]);
                if q[i] == x {
                    if bytes_lt(l.from, x.from) {
                        lemma_bytes_lt_trans(x.from, l.from, x.from);
                        lemma_bytes_lt_irreflexive(x.from);
                    }
                } else {
                    let j = choose|j: int| 0 <= j < sp.len() && sp[j] == q[i];
                    assert(s[j] == sp[j]);
                    assert(s[s.len() - 1] == l);
                }
            }
            assert forall|i: int, j: int| 0 <= i < j < r.len() implies !bytes_lt(#[trigger] r[j].from, #[trigger] r[i].from) by {
                if j == r.len() - 1 {
                    assert(r[j] == l);
                } else {
                    assert(r[j] == q[j] && r[i] == q[i]);
                }
            }
            assert forall|i: int| 0 <= i < r.len() implies #[trigger] r[i] == x || s.contains(r[i]) by {
                if i == r.len() - 1 {
                    assert(s[s.len() - 1] == r[i]);
                } else {
                    assert(r[i] == q[i]);
                    if q[i] != x {
                        let j = choose|j: int| 0 <= j < sp.len() && sp[j] == q[i];
                        assert(s[j] == sp[j]);
                    }
                }
            }
        } else {
            let r = s.push(x);
            assert(r == ins_by_from(s, x));
            assert forall|i: int| 0 <= i < s.len() implies !bytes_lt(x.from, #[trigger] s[i].from) by {
                if i < s.len() - 1 {
                    assert(!bytes_lt(s[s.len() - 1].from, s[i].from));
                }
                if bytes_lt(x.from, s[i].from) {
                    lemma_bytes_lt_total(x.from, l.from);
                    if x.from == l.from {
                    } else {
                        lemma_bytes_lt_trans(l.from, x.from, s[i].from);
                    }
                }
            }
            assert forall|i: int, j: int| 0 <= i < j < r.len() implies !bytes_lt(#[trigger] r[j].from, #[trigger] r[i].from) by {
                if j == r.len() - 1 {
                    assert(r[j] == x && r[i] == s[i]);
                } else {
                    assert(r[j] == s[j] && r[i] == s[i]);
                }
            }
            assert forall|i: int| 0 <= i < r.len() implies #[trigger] r[i] == x || s.contains(r[i]) by {
                if i < s.len() {
                    assert(r[i] == s[i]);
                }
            }
        }
    }
}

/// A timeline lists exactly the triples it was given, each as often as
/// given, and no triple in it starts before one listed ahead of it.
pub proof fn lemma_timeline_sorted(s: Seq<TripleModel>)
    ensures
        from_sorted(sort_by_from(s)),
        sort_by_from(s).to_multiset() == s.to_multiset(),
    decreases s.len(),
{
    broadcast use vstd::seq_lib::group_to_multiset_ensures;
    if s.len() == 0 {
        assert(s.to_multiset() =~= sort_by_from(s).to_multiset());
    } else {
        let sp = s.drop_last();
        assert(s =~= sp.push(s.last()));
        lemma_timeline_sorted(sp);
        lemma_ins_sorted(sort_by_from(sp), s.last());
        assert(sort_by_from(s).to_multiset() =~= s.to_multiset());
    }
}

proof fn lemma_ginsert_forward(g: GroupsModel, k: (Seq<u8>, Seq<u8>), t: TripleModel, f: spec_fn(TripleModel) -> bool)
    requires
        f(t),
    ensures
        forward(ginsert(g, k, t), k.0, f).contains(t),
    decreases g.len(),
{
    assert(keep(Seq::<TripleModel>::empty(), f) =~= seq![]);
    let g2 = ginsert(g, k, t);
    if g.len() == 0 {
        lemma_every_single(k, seq![t], f);
        assert(seq![t].drop_last() =~= Seq::<TripleModel>::empty());
        assert(keep(seq![t], f)[0] == t);
    } else if g[0].0 == k {
        let ts2 = g[0].1.push(t);
        let h2 = seq![(k, ts2)];
        assert(g2 =~= h2 + g.drop_first());
        lemma_forward_concat(h2, g.drop_first(), k.0, f);
        lemma_every_single(k, ts2, f);
        assert(ts2.drop_last() =~= g[0].1);
        let kept = keep(ts2, f);
        assert(kept.last() == t);
        assert(forward(g2, k.0, f)[kept.len() - 1] == t);
    } else if key_lt(k, g[0].0) {
        let h2 = seq![(k, seq![t])];
        assert(g2 =~= h2 + g);
        lemma_forward_concat(h2, g, k.0, f);
        lemma_every_single(k, seq![t], f);
        assert(seq![t].drop_last() =~= Seq::<TripleModel>::empty());
        assert(forward(g2, k.0, f)[0] == t);
    } else {
        let head = seq![g[0]];
        let r2 = ginsert(g.drop_first(), k, t);
        assert(g2 =~= head + r2);
        lemma_forward_concat(head, r2, k.0, f);
        lemma_ginsert_forward(g.drop_first(), k, t, f);
        let j = choose|j: int| 0 <= j < forward(r2, k.0, f).len() && forward(r2, k.0, f)[j] == t;
        assert(forward(g2, k.0, f)[forward(head, k.0, f).len() + j] == t);
    }
}

/// An added triple holds from then on: the next query about its first
/// entity returns it, and so does a lookup as of its start time.
pub proof fn lemma_added_triple_is_found(g: GroupsModel, a: Seq<u8>, r: Seq<u8>, b: Seq<u8>, from: Seq<u8>)
    ensures
        query_spec(ginsert(g, (a, r), TripleModel { a, r, b, from, until: None }), a).contains(
            TripleModel { a, r, b, from, until: None },
        ),
        forward(ginsert(g, (a, r), TripleModel { a, r, b, from, until: None }), a, pick_fn(PickModel::HeldAt(from))).contains(
            TripleModel { a, r, b, from, until: None },
        ),
{
    let t = TripleModel { a, r, b, from, until: None };
    let g2 = ginsert(g, (a, r), t);
    lemma_ginsert_forward(g, (a, r), t, pick_fn(PickModel::Open));
    lemma_bytes_lt_irreflexive(from);
    lemma_ginsert_forward(g, (a, r), t, pick_fn(PickModel::HeldAt(from)));
    let fw = forward(g2, a, pick_fn(PickModel::Open));
    let j = choose|j: int| 0 <= j < fw.len() && fw[j] == t;
    assert(query_spec(g2, a)[j] == t);
}

} // verus!
