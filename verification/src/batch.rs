//! Batches: the partition of a frame's renderable entities into draw calls,
//! and the order in which the calls are issued.

use vstd::prelude::*;
use crate::components::Entity;
use crate::instance::{instance_entities, BatchKey, InstanceEntity};

verus! {

/// A group of renderable entities that one draw call draws: they share
/// shape, texture, pipeline and layer. The batches that [`collect`] builds
/// are never empty.
#[derive(Debug)]
pub struct Batch {
    key: BatchKey,
    members: Vec<InstanceEntity>,
}

/// A batch as contracts see it.
pub struct BatchView {
    pub key: BatchKey,
    pub members: Seq<InstanceEntity>,
}

impl View for Batch {
    type V = BatchView;

    closed spec fn view(&self) -> BatchView {
        BatchView { key: self.key, members: self.members@ }
    }
}

/// The test that picks the entities of one batch.
pub open spec fn has_key(key: BatchKey) -> spec_fn(InstanceEntity) -> bool {
    |m: InstanceEntity| m.instance.spec_key() == key
}

/// The entities that carry `key`, in the order in which they were found.
pub open spec fn members_with(ms: Seq<InstanceEntity>, key: BatchKey) -> Seq<InstanceEntity> {
    ms.filter(has_key(key))
}

/// Entities come in the order of the table: positions only grow.
pub open spec fn ids_ascend(ms: Seq<InstanceEntity>) -> bool {
    forall|i: int, j: int| 0 <= i < j < ms.len() ==> ms[i].id < ms[j].id
}

impl BatchView {
    /// A batch is well formed if it is not empty and every member carries
    /// the batch's key.
    pub open spec fn wf(self) -> bool {
        &&& self.members.len() > 0
        &&& forall|j: int|
            0 <= j < self.members.len() ==> (#[trigger] self.members[j]).instance.spec_key()
                == self.key
    }

    /// The draw order: a lower layer comes first; within a layer, the batch
    /// whose first member was found first.
    pub open spec fn precedes(self, other: BatchView) -> bool {
        ||| self.key.layer < other.key.layer
        ||| self.key.layer == other.key.layer && self.members[0].id < other.members[0].id
    }
}

/// Some batch has `key`.
pub open spec fn has_batch(bs: Seq<BatchView>, key: BatchKey) -> bool {
    exists|i: int| 0 <= i < bs.len() && (#[trigger] bs[i]).key == key
}

/// `bs` is the batching of the entities `ms`: each batch holds exactly the
/// entities that carry its key, in the order in which they were found; every
/// entity's key has a batch; and the batches stand in draw order.
pub open spec fn is_batching(ms: Seq<InstanceEntity>, bs: Seq<BatchView>) -> bool {
    &&& forall|i: int|
        0 <= i < bs.len() ==> (#[trigger] bs[i]).members.len() > 0 && bs[i].members
            == members_with(ms, bs[i].key)
    &&& forall|k: int| 0 <= k < ms.len() ==> has_batch(bs, (#[trigger] ms[k]).instance.spec_key())
    &&& forall|i: int, j: int|
        0 <= i < j < bs.len() ==> (#[trigger] bs[i]).precedes(#[trigger] bs[j])
}

/// The batching of `ms`. There is one and only one: see
/// [`lemma_batching_exists`] and [`lemma_batching_unique`].
pub open spec fn batches_of(ms: Seq<InstanceEntity>) -> Seq<BatchView> {
    choose|bs: Seq<BatchView>| is_batching(ms, bs)
}

/// The views of a sequence of batches.
pub open spec fn batch_views(batches: Seq<Batch>) -> Seq<BatchView> {
    batches.map_values(|b: Batch| b@)
}

/// What adding the entity `m` to batch `p` makes of a batching.
pub open spec fn joined(bs: Seq<BatchView>, p: int, m: InstanceEntity) -> Seq<BatchView> {
    bs.update(p, BatchView { key: bs[p].key, members: bs[p].members.push(m) })
}

/// What opening a batch for the entity `m` at place `q` makes of a batching.
pub open spec fn opened(bs: Seq<BatchView>, q: int, m: InstanceEntity) -> Seq<BatchView> {
    bs.insert(q, BatchView { key: m.instance.spec_key(), members: seq![m] })
}

/// The first member of a batch is one of the entities and carries the
/// batch's key.
proof fn lemma_first_member(ms: Seq<InstanceEntity>, bs: Seq<BatchView>, i: int)
    requires
        is_batching(ms, bs),
        0 <= i < bs.len(),
    ensures
        ms.contains(bs[i].members[0]),
        bs[i].members[0].instance.spec_key() == bs[i].key,
{
    let pred = has_key(bs[i].key);
    let first = bs[i].members[0];
    ms.lemma_filter_pred(pred, 0);
    ms.lemma_filter_contains_rev(pred, first);
}

/// No two batches of a batching have the same key.
proof fn lemma_keys_differ(ms: Seq<InstanceEntity>, bs: Seq<BatchView>, i: int, j: int)
    requires
        is_batching(ms, bs),
        0 <= i < bs.len(),
        0 <= j < bs.len(),
        i != j,
    ensures
        bs[i].key != bs[j].key,
{
    if bs[i].key == bs[j].key {
        if i < j {
            assert(bs[i].precedes(bs[j]));
        } else {
            assert(bs[j].precedes(bs[i]));
        }
    }
}

/// No entity carries a key that no batch has.
proof fn lemma_no_member_without_batch(ms: Seq<InstanceEntity>, bs: Seq<BatchView>, key: BatchKey)
    requires
        is_batching(ms, bs),
        forall|i: int| 0 <= i < bs.len() ==> (#[trigger] bs[i]).key != key,
    ensures
        members_with(ms, key).len() == 0,
{
    let pred = has_key(key);
    let found = ms.filter(pred);
    if found.len() > 0 {
        let x = found[0];
        ms.lemma_filter_pred(pred, 0);
        ms.lemma_filter_contains_rev(pred, x);
        let k = choose|k: int| 0 <= k < ms.len() && ms[k] == x;
        assert(has_batch(bs, ms[k].instance.spec_key()));
    }
}

/// Adding an entity to the batch that has its key keeps a batching.
proof fn lemma_join(ms: Seq<InstanceEntity>, bs: Seq<BatchView>, m: InstanceEntity, p: int)
    requires
        is_batching(ms, bs),
        0 <= p < bs.len(),
        bs[p].key == m.instance.spec_key(),
    ensures
        is_batching(ms.push(m), joined(bs, p, m)),
{
    let ms2 = ms.push(m);
    let bs2 = joined(bs, p, m);
    assert forall|i: int| 0 <= i < bs2.len() implies (#[trigger] bs2[i]).members.len() > 0
        && bs2[i].members == members_with(ms2, bs2[i].key) by {
        ms.lemma_filter_push(m, has_key(bs2[i].key));
        if i != p {
            lemma_keys_differ(ms, bs, i, p);
        }
    }
    assert forall|k: int| 0 <= k < ms2.len() implies has_batch(
        bs2,
        (#[trigger] ms2[k]).instance.spec_key(),
    ) by {
        if k < ms.len() {
            let i = choose|i: int|
                0 <= i < bs.len() && (#[trigger] bs[i]).key == ms[k].instance.spec_key();
            assert(bs2[i].key == ms2[k].instance.spec_key());
        } else {
            assert(bs2[p].key == ms2[k].instance.spec_key());
        }
    }
    assert forall|i: int, j: int| 0 <= i < j < bs2.len() implies (#[trigger] bs2[i]).precedes(
        #[trigger] bs2[j],
    ) by {
        assert(bs2[j].members[0] == bs[j].members[0]);
    }
}

/// Opening a batch for an entity whose key no batch has, behind the batches
/// of its layer and below, keeps a batching.
proof fn lemma_open(ms: Seq<InstanceEntity>, bs: Seq<BatchView>, m: InstanceEntity, q: int)
    requires
        is_batching(ms, bs),
        forall|i: int| 0 <= i < bs.len() ==> (#[trigger] bs[i]).key != m.instance.spec_key(),
        0 <= q <= bs.len(),
        forall|i: int| 0 <= i < q ==> (#[trigger] bs[i]).key.layer <= m.instance.layer,
        forall|i: int| q <= i < bs.len() ==> (#[trigger] bs[i]).key.layer > m.instance.layer,
        forall|k: int| 0 <= k < ms.len() ==> (#[trigger] ms[k]).id < m.id,
    ensures
        is_batching(ms.push(m), opened(bs, q, m)),
{
    let key = m.instance.spec_key();
    let ms2 = ms.push(m);
    let nb = BatchView { key, members: seq![m] };
    let bs2 = opened(bs, q, m);
    bs.insert_ensures(q, nb);
    assert forall|i: int| 0 <= i < bs2.len() implies (#[trigger] bs2[i]).members.len() > 0
        && bs2[i].members == members_with(ms2, bs2[i].key) by {
        ms.lemma_filter_push(m, has_key(bs2[i].key));
        if i < q {
            assert(bs2[i] == bs[i]);
        } else if i == q {
            lemma_no_member_without_batch(ms, bs, key);
        } else {
            assert(bs2[i] == bs[i - 1]);
        }
    }
    assert forall|k: int| 0 <= k < ms2.len() implies has_batch(
        bs2,
        (#[trigger] ms2[k]).instance.spec_key(),
    ) by {
        if k < ms.len() {
            let i = choose|i: int|
                0 <= i < bs.len() && (#[trigger] bs[i]).key == ms[k].instance.spec_key();
            if i < q {
                assert(bs2[i] == bs[i]);
            } else {
                assert(bs2[i + 1] == bs[i]);
            }
        } else {
            assert(bs2[q].key == ms2[k].instance.spec_key());
        }
    }
    assert forall|i: int, j: int| 0 <= i < j < bs2.len() implies (#[trigger] bs2[i]).precedes(
        #[trigger] bs2[j],
    ) by {
        let oi = if i < q { i } else { i - 1 };
        let oj = if j < q { j } else { j - 1 };
        if i != q {
            assert(bs2[i] == bs[oi]);
        }
        if j != q {
            assert(bs2[j] == bs[oj]);
        }
        if i != q && j != q {
            assert(bs[oi].precedes(bs[oj]));
        } else if j == q {
            lemma_first_member(ms, bs, oi);
            let first = bs[oi].members[0];
            let k = choose|k: int| 0 <= k < ms.len() && ms[k] == first;
            assert(ms[k].id < m.id);
        } else {
            assert(bs[oj].key.layer > m.instance.layer);
        }
    }
}

/// Two sequences of batches in draw order that hold the same batches are
/// equal.
proof fn lemma_same_batches_same_order(a: Seq<BatchView>, b: Seq<BatchView>)
    requires
        forall|i: int, j: int| 0 <= i < j < a.len() ==> (#[trigger] a[i]).precedes(#[trigger] a[j]),
        forall|i: int, j: int| 0 <= i < j < b.len() ==> (#[trigger] b[i]).precedes(#[trigger] b[j]),
        forall|i: int| 0 <= i < a.len() ==> b.contains(#[trigger] a[i]),
        forall|i: int| 0 <= i < b.len() ==> a.contains(#[trigger] b[i]),
    ensures
        a == b,
    decreases a.len(),
{
    if a.len() == 0 {
        if b.len() > 0 {
            assert(a.contains(b[0]));
        }
    } else {
        let j = choose|j: int| 0 <= j < b.len() && b[j] == a[0];
        let i = choose|i: int| 0 <= i < a.len() && a[i] == b[0];
        if j > 0 {
            if i > 0 {
                assert(a[0].precedes(a[i]));
            }
        }
        let ta = a.drop_first();
        let tb = b.drop_first();
        assert forall|x: int| 0 <= x < ta.len() implies tb.contains(#[trigger] ta[x]) by {
            let y = choose|y: int| 0 <= y < b.len() && b[y] == a[x + 1];
            assert(tb[y - 1] == b[y]);
        }
        assert forall|y: int| 0 <= y < tb.len() implies ta.contains(#[trigger] tb[y]) by {
            let x = choose|x: int| 0 <= x < a.len() && a[x] == b[y + 1];
            assert(ta[x - 1] == a[x]);
        }
        assert forall|x: int, y: int| 0 <= x < y < ta.len() implies (#[trigger] ta[x]).precedes(
            #[trigger] ta[y],
        ) by {
            assert(a[x + 1].precedes(a[y + 1]));
        }
        assert forall|x: int, y: int| 0 <= x < y < tb.len() implies (#[trigger] tb[x]).precedes(
            #[trigger] tb[y],
        ) by {
            assert(b[x + 1].precedes(b[y + 1]));
        }
        lemma_same_batches_same_order(ta, tb);
        assert(b =~= seq![b[0]] + tb);
    }
}

/// Every batch of one batching occurs in every other batching of the same
/// entities.
proof fn lemma_batch_in_both(
    ms: Seq<InstanceEntity>,
    a: Seq<BatchView>,
    b: Seq<BatchView>,
    i: int,
)
    requires
        is_batching(ms, a),
        is_batching(ms, b),
        0 <= i < a.len(),
    ensures
        b.contains(a[i]),
{
    lemma_first_member(ms, a, i);
    let first = a[i].members[0];
    let k = choose|k: int| 0 <= k < ms.len() && ms[k] == first;
    let j = choose|j: int| 0 <= j < b.len() && (#[trigger] b[j]).key == ms[k].instance.spec_key();
    assert(b[j].members == a[i].members);
    assert(b[j] == a[i]);
}

/// Determinism: the entities fix their batching. Whatever meets
/// [`is_batching`] for `ms` is the same sequence of batches, in the same
/// order.
pub proof fn lemma_batching_unique(ms: Seq<InstanceEntity>, a: Seq<BatchView>, b: Seq<BatchView>)
    requires
        is_batching(ms, a),
        is_batching(ms, b),
    ensures
        a == b,
{
    assert forall|i: int| 0 <= i < a.len() implies b.contains(#[trigger] a[i]) by {
        lemma_batch_in_both(ms, a, b, i);
    }
    assert forall|i: int| 0 <= i < b.len() implies a.contains(#[trigger] b[i]) by {
        lemma_batch_in_both(ms, b, a, i);
    }
    lemma_same_batches_same_order(a, b);
}

/// Whatever meets [`is_batching`] for `ms` is [`batches_of`] `ms`.
pub proof fn lemma_batches_of(ms: Seq<InstanceEntity>, bs: Seq<BatchView>)
    requires
        is_batching(ms, bs),
    ensures
        batches_of(ms) == bs,
{
    lemma_batching_unique(ms, bs, batches_of(ms));
}

/// Batches in draw order have a place behind which every layer is above
/// `layer` and before which none is.
proof fn lemma_place_behind(bs: Seq<BatchView>, layer: i32) -> (q: int)
    requires
        forall|i: int, j: int|
            0 <= i < j < bs.len() ==> (#[trigger] bs[i]).precedes(#[trigger] bs[j]),
    ensures
        0 <= q <= bs.len(),
        forall|i: int| 0 <= i < q ==> (#[trigger] bs[i]).key.layer <= layer,
        forall|i: int| q <= i < bs.len() ==> (#[trigger] bs[i]).key.layer > layer,
    decreases bs.len(),
{
    if bs.len() == 0 {
        0
    } else if bs.last().key.layer <= layer {
        assert forall|i: int| 0 <= i < bs.len() implies (#[trigger] bs[i]).key.layer <= layer by {
            if i < bs.len() - 1 {
                assert(bs[i].precedes(bs[bs.len() - 1]));
            }
        }
        bs.len() as int
    } else {
        let front = bs.drop_last();
        assert forall|i: int, j: int| 0 <= i < j < front.len() implies (
        #[trigger] front[i]).precedes(#[trigger] front[j]) by {
            assert(bs[i].precedes(bs[j]));
        }
        let q = lemma_place_behind(front, layer);
        assert forall|i: int| 0 <= i < q implies (#[trigger] bs[i]).key.layer <= layer by {
            assert(front[i].key.layer <= layer);
        }
        assert forall|i: int| q <= i < bs.len() implies (#[trigger] bs[i]).key.layer > layer by {
            if i < front.len() {
                assert(front[i].key.layer > layer);
            }
        }
        q
    }
}

/// One more entity, found after all others, extends a batching: the entity
/// joins the batch of its key or opens a batch of its own.
proof fn lemma_extend(front: Seq<InstanceEntity>, bs: Seq<BatchView>, m: InstanceEntity) -> (r: Seq<
    BatchView,
>)
    requires
        is_batching(front, bs),
        forall|k: int| 0 <= k < front.len() ==> (#[trigger] front[k]).id < m.id,
    ensures
        is_batching(front.push(m), r),
        member_count(r) == member_count(bs) + 1,
{
    let key = m.instance.spec_key();
    if has_batch(bs, key) {
        let p = choose|p: int| 0 <= p < bs.len() && (#[trigger] bs[p]).key == key;
        lemma_join(front, bs, m, p);
        lemma_count_update(bs, p, BatchView { key: bs[p].key, members: bs[p].members.push(m) });
        joined(bs, p, m)
    } else {
        let q = lemma_place_behind(bs, m.instance.layer);
        lemma_open(front, bs, m, q);
        lemma_count_insert(bs, q, BatchView { key, members: seq![m] });
        opened(bs, q, m)
    }
}

/// The batching exists: entities that come in the order of a table have a
/// batching, and [`batches_of`] is it.
pub proof fn lemma_batching_exists(ms: Seq<InstanceEntity>)
    requires
        ids_ascend(ms),
    ensures
        is_batching(ms, batches_of(ms)),
    decreases ms.len(),
{
    if ms.len() == 0 {
        assert(is_batching(ms, Seq::<BatchView>::empty()));
    } else {
        let front = ms.drop_last();
        let m = ms.last();
        lemma_batching_exists(front);
        assert(front.push(m) =~= ms);
        assert forall|k: int| 0 <= k < front.len() implies (#[trigger] front[k]).id < m.id by {
            assert(ms[k].id < ms[ms.len() - 1].id);
        }
        let r = lemma_extend(front, batches_of(front), m);
        assert(is_batching(ms, r));
    }
}

/// The number of members of all batches together.
pub open spec fn member_count(bs: Seq<BatchView>) -> nat
    decreases bs.len(),
{
    if bs.len() == 0 {
        0
    } else {
        member_count(bs.drop_last()) + bs.last().members.len()
    }
}

/// Replacing a batch changes the count by the difference of the two sizes.
proof fn lemma_count_update(bs: Seq<BatchView>, p: int, b: BatchView)
    requires
        0 <= p < bs.len(),
    ensures
        member_count(bs.update(p, b)) + bs[p].members.len() == member_count(bs) + b.members.len(),
    decreases bs.len(),
{
    let after = bs.update(p, b);
    if p == bs.len() - 1 {
        assert(after.drop_last() =~= bs.drop_last());
    } else {
        lemma_count_update(bs.drop_last(), p, b);
        assert(after.drop_last() =~= bs.drop_last().update(p, b));
    }
}

/// A batch more adds its size to the count.
proof fn lemma_count_insert(bs: Seq<BatchView>, q: int, b: BatchView)
    requires
        0 <= q <= bs.len(),
    ensures
        member_count(bs.insert(q, b)) == member_count(bs) + b.members.len(),
    decreases bs.len(),
{
    let after = bs.insert(q, b);
    bs.insert_ensures(q, b);
    if q == bs.len() {
        assert(after.drop_last() =~= bs);
    } else {
        lemma_count_insert(bs.drop_last(), q, b);
        bs.drop_last().insert_ensures(q, b);
        assert(after.drop_last() =~= bs.drop_last().insert(q, b));
    }
}

/// The batches hold as many members as there are entities: none is left
/// out and none is drawn twice.
pub proof fn lemma_member_count(ms: Seq<InstanceEntity>, bs: Seq<BatchView>)
    requires
        ids_ascend(ms),
        is_batching(ms, bs),
    ensures
        member_count(bs) == ms.len(),
    decreases ms.len(),
{
    if ms.len() == 0 {
        if bs.len() > 0 {
            lemma_first_member(ms, bs, 0);
        }
    } else {
        let front = ms.drop_last();
        let m = ms.last();
        lemma_batching_exists(front);
        lemma_member_count(front, batches_of(front));
        assert(front.push(m) =~= ms);
        assert forall|k: int| 0 <= k < front.len() implies (#[trigger] front[k]).id < m.id by {
            assert(ms[k].id < ms[ms.len() - 1].id);
        }
        let r = lemma_extend(front, batches_of(front), m);
        lemma_batching_unique(ms, bs, r);
    }
}

/// Every renderable entity found in a table lies in the table.
pub proof fn lemma_ids_in_table(entities: Seq<Entity>)
    ensures
        forall|k: int|
            0 <= k < instance_entities(entities).len() ==> (#[trigger] instance_entities(
                entities,
            )[k]).id < entities.len(),
    decreases entities.len(),
{
    if entities.len() > 0 {
        let rest = instance_entities(entities.drop_last());
        lemma_ids_in_table(entities.drop_last());
        assert forall|k: int| 0 <= k < instance_entities(entities).len() implies (
        #[trigger] instance_entities(entities)[k]).id < entities.len() by {
            if k < rest.len() {
                assert(instance_entities(entities)[k] == rest[k]);
            }
        }
    }
}

impl Batch {
    /// A batch of one entity, keyed by its record.
    pub fn new(first: InstanceEntity) -> (r: Batch)
        ensures
            r@ == (BatchView { key: first.instance.spec_key(), members: seq![first] }),
    {
        let key = first.instance.key();
        let mut members: Vec<InstanceEntity> = Vec::new();
        members.push(first);
        Batch { key, members }
    }

    fn push(&mut self, m: InstanceEntity)
        requires
            m.instance.spec_key() == old(self)@.key,
        ensures
            final(self)@ == (BatchView {
                key: old(self)@.key,
                members: old(self)@.members.push(m),
            }),
    {
        self.members.push(m);
    }

    /// The key that every member carries.
    pub fn key(&self) -> (r: BatchKey)
        ensures
            r == self@.key,
    {
        self.key
    }

    /// The layer the batch is drawn in.
    pub fn layer(&self) -> (r: i32)
        ensures
            r == self@.key.layer,
    {
        self.key.layer
    }

    /// The number of members.
    pub fn len(&self) -> (r: usize)
        ensures
            r == self@.members.len(),
    {
        self.members.len()
    }

    /// The members, in the order in which they were found.
    pub fn members(&self) -> (r: &Vec<InstanceEntity>)
        ensures
            r@ == self@.members,
    {
        &self.members
    }

    /// Member `j`, if there are that many.
    pub fn get(&self, j: usize) -> (r: Option<InstanceEntity>)
        ensures
            r == if j < self@.members.len() {
                Some(self@.members[j as int])
            } else {
                None
            },
    {
        if j < self.members.len() {
            Some(self.members[j])
        } else {
            None
        }
    }

    /// The member that stands for the batch where one record is needed: the
    /// first one found.
    pub fn representative(&self) -> (r: Option<InstanceEntity>)
        ensures
            r == if self@.members.len() > 0 {
                Some(self@.members[0])
            } else {
                None
            },
    {
        if self.members.len() > 0 {
            Some(self.members[0])
        } else {
            None
        }
    }
}

/// The components by which an entity is drawn, if it is.
fn renderable(e: &Entity) -> (r: Option<(crate::instance::Instance, crate::components::Transform)>)
    ensures
        r is Some <==> e.is_renderable(),
        r matches Some((instance, transform)) ==> e.instance == Some(instance) && e.transform
            == Some(transform),
{
    if let Some(instance) = e.instance {
        if let Some(transform) = e.transform {
            if instance.active && transform.active {
                return Some((instance, transform));
            }
        }
    }
    None
}

/// The place of the batch that has `key`, if there is one.
fn find_batch(batches: &Vec<Batch>, key: BatchKey) -> (r: Option<usize>)
    ensures
        match r {
            Some(p) => p < batches.len() && batches[p as int]@.key == key,
            None => forall|i: int| 0 <= i < batches.len() ==> (#[trigger] batches[i])@.key != key,
        },
{
    let mut p: usize = 0;
    while p < batches.len()
        invariant
            p <= batches.len(),
            forall|i: int| 0 <= i < p ==> (#[trigger] batches[i])@.key != key,
        decreases batches.len() - p,
    {
        if batches[p].key() == key {
            return Some(p);
        }
        p += 1;
    }
    None
}

/// The place behind the batches of `layer` and of the layers below it.
fn place_behind(batches: &Vec<Batch>, layer: i32) -> (q: usize)
    requires
        forall|i: int, j: int|
            0 <= i < j < batches.len() ==> (#[trigger] batches[i])@.key.layer <= (
            #[trigger] batches[j])@.key.layer,
    ensures
        q <= batches.len(),
        forall|i: int| 0 <= i < q ==> (#[trigger] batches[i])@.key.layer <= layer,
        forall|i: int| q <= i < batches.len() ==> (#[trigger] batches[i])@.key.layer > layer,
{
    let mut q: usize = 0;
    while q < batches.len() && batches[q].layer() <= layer
        invariant
            q <= batches.len(),
            forall|i: int| 0 <= i < q ==> (#[trigger] batches[i])@.key.layer <= layer,
        decreases batches.len() - q,
    {
        q += 1;
    }
    q
}

/// Partitions the renderable entities of a table into batches and puts the
/// batches in draw order.
///
/// An entity is renderable if it has an active instance record and an active
/// transform. Each batch holds the renderable entities of one key, in the
/// order of the table. Batches are ordered by layer, lowest first; batches of
/// one layer stand in the order in which their first members occur in the
/// table.
pub fn collect(entities: &Vec<Entity>) -> (batches: Vec<Batch>)
    ensures
        is_batching(instance_entities(entities@), batch_views(batches@)),
        batch_views(batches@) == batches_of(instance_entities(entities@)),
{
    let mut batches: Vec<Batch> = Vec::new();
    let mut i: usize = 0;
    while i < entities.len()
        invariant
            i <= entities.len(),
            is_batching(instance_entities(entities@.take(i as int)), batch_views(batches@)),
        decreases entities.len() - i,
    {
        let ghost seen = entities@.take(i as int);
        let ghost ms = instance_entities(seen);
        let ghost bs = batch_views(batches@);
        proof {
            assert(entities@.take(i + 1).drop_last() =~= seen);
            lemma_ids_in_table(seen);
        }
        if let Some((instance, transform)) = renderable(&entities[i]) {
            let m = InstanceEntity { id: i, instance, transform };
            let key = instance.key();
            match find_batch(&batches, key) {
                Some(p) => {
                    batches[p].push(m);
                    proof {
                        lemma_join(ms, bs, m, p as int);
                        assert(batch_views(batches@) =~= joined(bs, p as int, m));
                    }
                },
                None => {
                    proof {
                        assert forall|a: int, b: int| 0 <= a < b < batches.len() implies (
                        #[trigger] batches[a])@.key.layer <= (#[trigger] batches[b])@.key.layer by {
                            assert(bs[a].precedes(bs[b]));
                        }
                    }
                    let q = place_behind(&batches, key.layer);
                    batches.insert(q, Batch::new(m));
                    proof {
                        assert forall|a: int| 0 <= a < bs.len() implies (#[trigger] bs[a]).key
                            != key by {
                            assert(bs[a] == batches@[if a < q { a } else { a + 1 }]@);
                        }
                        lemma_open(ms, bs, m, q as int);
                        assert(batch_views(batches@) =~= opened(bs, q as int, m));
                    }
                },
            }
        }
        i += 1;
    }
    proof {
        assert(entities@.take(i as int) =~= entities@);
        lemma_batches_of(instance_entities(entities@), batch_views(batches@));
    }
    batches
}

/// The entity `m` is member `j` of batch `i`.
pub open spec fn is_member(bs: Seq<BatchView>, i: int, j: int, m: InstanceEntity) -> bool {
    &&& 0 <= i < bs.len()
    &&& 0 <= j < bs[i].members.len()
    &&& bs[i].members[j] == m
}

/// What [`instance_entities`] finds: exactly the renderable entities of the
/// table, each with its own components and under its own position, in the
/// order of the table.
pub proof fn lemma_instance_entities(entities: Seq<Entity>)
    requires
        entities.len() <= usize::MAX,
    ensures
        ids_ascend(instance_entities(entities)),
        forall|k: int|
            0 <= k < instance_entities(entities).len() ==> {
                let m = #[trigger] instance_entities(entities)[k];
                &&& m.id < entities.len()
                &&& entities[m.id as int].is_renderable()
                &&& entities[m.id as int].instance == Some(m.instance)
                &&& entities[m.id as int].transform == Some(m.transform)
            },
        forall|e: int|
            0 <= e < entities.len() && (#[trigger] entities[e]).is_renderable() ==> exists|k: int|
                0 <= k < instance_entities(entities).len() && (#[trigger] instance_entities(
                    entities,
                )[k]).id == e,
    decreases entities.len(),
{
    let ms = instance_entities(entities);
    if entities.len() > 0 {
        let front = entities.drop_last();
        let rest = instance_entities(front);
        lemma_instance_entities(front);
        assert forall|k: int| 0 <= k < ms.len() implies {
            let m = #[trigger] ms[k];
            &&& m.id < entities.len()
            &&& entities[m.id as int].is_renderable()
            &&& entities[m.id as int].instance == Some(m.instance)
            &&& entities[m.id as int].transform == Some(m.transform)
        } by {
            if k < rest.len() {
                assert(front[rest[k].id as int] == entities[rest[k].id as int]);
            }
        }
        assert forall|i: int, j: int| 0 <= i < j < ms.len() implies ms[i].id < ms[j].id by {
            if j < rest.len() {
                assert(ms[j] == rest[j]);
            }
        }
        assert forall|e: int| 0 <= e < entities.len() && (#[trigger] entities[e]).is_renderable()
            implies exists|k: int| 0 <= k < ms.len() && (#[trigger] ms[k]).id == e by {
            if e < front.len() {
                assert(front[e].is_renderable());
                let k = choose|k: int| 0 <= k < rest.len() && (#[trigger] rest[k]).id == e;
                assert(ms[k] == rest[k]);
            } else {
                assert(ms[ms.len() - 1].id == e);
            }
        }
    }
}

/// Picking by key keeps the order of the table.
proof fn lemma_members_ascend(ms: Seq<InstanceEntity>, key: BatchKey)
    requires
        ids_ascend(ms),
    ensures
        ids_ascend(members_with(ms, key)),
    decreases ms.len(),
{
    let pred = has_key(key);
    let found = ms.filter(pred);
    if ms.len() > 0 {
        let front = ms.drop_last();
        let rest = front.filter(pred);
        lemma_members_ascend(front, key);
        front.lemma_filter_push(ms.last(), pred);
        assert(front.push(ms.last()) =~= ms);
        assert forall|i: int, j: int| 0 <= i < j < found.len() implies found[i].id
            < found[j].id by {
            if j < rest.len() {
                assert(found[j] == rest[j]);
            } else {
                front.lemma_filter_contains_rev(pred, rest[i]);
                let k = choose|k: int| 0 <= k < front.len() && front[k] == rest[i];
                assert(ms[k].id < ms[ms.len() - 1].id);
            }
        }
    } else {
        reveal(Seq::filter);
    }
}

/// One batch per key: two batches of a batching never share a key, so
/// records of one key are drawn by one batch.
pub proof fn lemma_one_batch_per_key(ms: Seq<InstanceEntity>, bs: Seq<BatchView>)
    requires
        is_batching(ms, bs),
    ensures
        forall|i: int, j: int|
            0 <= i < bs.len() && 0 <= j < bs.len() && i != j ==> (#[trigger] bs[i]).key != (
            #[trigger] bs[j]).key,
{
    assert forall|i: int, j: int| 0 <= i < bs.len() && 0 <= j < bs.len() && i != j implies (
    #[trigger] bs[i]).key != (#[trigger] bs[j]).key by {
        lemma_keys_differ(ms, bs, i, j);
    }
}

/// Every batch is well formed, and every member of every batch is one of the
/// entities.
pub proof fn lemma_batches_hold_entities(ms: Seq<InstanceEntity>, bs: Seq<BatchView>)
    requires
        is_batching(ms, bs),
    ensures
        forall|i: int| 0 <= i < bs.len() ==> (#[trigger] bs[i]).wf(),
        forall|i: int, j: int|
            0 <= i < bs.len() && 0 <= j < bs[i].members.len() ==> ms.contains(
                #[trigger] bs[i].members[j],
            ),
{
    assert forall|i: int, j: int| 0 <= i < bs.len() && 0 <= j < bs[i].members.len() implies {
        &&& ms.contains(#[trigger] bs[i].members[j])
        &&& bs[i].members[j].instance.spec_key() == bs[i].key
    } by {
        let pred = has_key(bs[i].key);
        let m = bs[i].members[j];
        ms.lemma_filter_pred(pred, j);
        ms.lemma_filter_contains_rev(pred, m);
    }
    assert forall|i: int| 0 <= i < bs.len() implies (#[trigger] bs[i]).wf() by {
        assert forall|j: int| 0 <= j < bs[i].members.len() implies (
        #[trigger] bs[i].members[j]).instance.spec_key() == bs[i].key by {
            assert(ms.contains(bs[i].members[j]));
        }
    }
}

/// The batches partition the entities: entity `k` is a member of the batch
/// that has its key, it is a member of no other batch, and it occurs once.
pub proof fn lemma_partition(ms: Seq<InstanceEntity>, bs: Seq<BatchView>, k: int) -> (at: (
    int,
    int,
))
    requires
        ids_ascend(ms),
        is_batching(ms, bs),
        0 <= k < ms.len(),
    ensures
        is_member(bs, at.0, at.1, ms[k]),
        bs[at.0].key == ms[k].instance.spec_key(),
        forall|i: int, j: int| is_member(bs, i, j, ms[k]) ==> i == at.0 && j == at.1,
{
    let m = ms[k];
    let key = m.instance.spec_key();
    let pred = has_key(key);
    let i = choose|i: int| 0 <= i < bs.len() && (#[trigger] bs[i]).key == key;
    ms.lemma_filter_contains(pred, k);
    let j = choose|j: int| 0 <= j < bs[i].members.len() && bs[i].members[j] == m;
    lemma_members_ascend(ms, key);
    assert forall|i2: int, j2: int| is_member(bs, i2, j2, m) implies i2 == i && j2 == j by {
        ms.lemma_filter_pred(has_key(bs[i2].key), j2);
        if i2 != i {
            lemma_keys_differ(ms, bs, i, i2);
        }
        if j2 < j {
            assert(bs[i].members[j2].id < bs[i].members[j].id);
        } else if j < j2 {
            assert(bs[i].members[j].id < bs[i].members[j2].id);
        }
    }
    (i, j)
}

/// Only renderable entities are drawn: every member of every batch is an
/// entity of the table with an active instance record and an active
/// transform, held with its own components. An inactive record is in no
/// batch.
pub proof fn lemma_only_renderable(entities: Seq<Entity>, bs: Seq<BatchView>)
    requires
        entities.len() <= usize::MAX,
        is_batching(instance_entities(entities), bs),
    ensures
        forall|i: int, j: int|
            0 <= i < bs.len() && 0 <= j < bs[i].members.len() ==> {
                let m = #[trigger] bs[i].members[j];
                &&& m.id < entities.len()
                &&& entities[m.id as int].is_renderable()
                &&& entities[m.id as int].instance == Some(m.instance)
                &&& entities[m.id as int].transform == Some(m.transform)
                &&& m.instance.active
                &&& m.transform.active
            },
{
    let ms = instance_entities(entities);
    lemma_instance_entities(entities);
    lemma_batches_hold_entities(ms, bs);
    assert forall|i: int, j: int| 0 <= i < bs.len() && 0 <= j < bs[i].members.len() implies {
        let m = #[trigger] bs[i].members[j];
        &&& m.id < entities.len()
        &&& entities[m.id as int].is_renderable()
        &&& entities[m.id as int].instance == Some(m.instance)
        &&& entities[m.id as int].transform == Some(m.transform)
        &&& m.instance.active
        &&& m.transform.active
    } by {
        let m = bs[i].members[j];
        let k = choose|k: int| 0 <= k < ms.len() && ms[k] == m;
        assert(ms[k].id < entities.len());
    }
}

/// Cameras play no part in batching: two tables that agree on instance
/// records and transforms have the same renderable entities, and so the same
/// batches.
pub proof fn lemma_cameras_do_not_matter(a: Seq<Entity>, b: Seq<Entity>)
    requires
        a.len() == b.len(),
        forall|i: int|
            0 <= i < a.len() ==> (#[trigger] a[i]).instance == b[i].instance && a[i].transform
                == b[i].transform,
    ensures
        instance_entities(a) == instance_entities(b),
        batches_of(instance_entities(a)) == batches_of(instance_entities(b)),
    decreases a.len(),
{
    if a.len() > 0 {
        let front_a = a.drop_last();
        let front_b = b.drop_last();
        assert(a.last().instance == b.last().instance && a.last().transform
            == b.last().transform) by {
            assert(a[a.len() - 1].instance == b[a.len() - 1].instance);
        }
        assert forall|i: int| 0 <= i < front_a.len() implies (#[trigger] front_a[i]).instance
            == front_b[i].instance && front_a[i].transform == front_b[i].transform by {
            assert(a[i].instance == b[i].instance);
        }
        lemma_cameras_do_not_matter(front_a, front_b);
    }
}

} // verus!
