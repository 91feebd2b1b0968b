use crate::entity_manager::{adds, removes, EntityManager, Id, Kind};
use crate::world::{attaches, creates, destroys, detaches, World};
use vstd::prelude::*;

verus! {

/// The live identifiers after a run of creations (`(true, id)`) and destructions
/// (`(false, id)`) starting from `live`.
pub open spec fn live_after(live: Set<Id>, ops: Seq<(bool, Id)>) -> Set<Id>
    decreases ops.len(),
{
    if ops.len() == 0 {
        live
    } else {
        let prev = live_after(live, ops.drop_last());
        if ops.last().0 {
            prev.insert(ops.last().1)
        } else {
            prev.remove(ops.last().1)
        }
    }
}

/// `ws` is a run of the world through `ops`: each step is a `create` that returned the
/// given identifier, or a `destroy` of it.
pub open spec fn is_run<V>(ws: Seq<World<V>>, ops: Seq<(bool, Id)>) -> bool {
    &&& ws.len() == ops.len() + 1
    &&& forall|i: int|
        0 <= i < ops.len() ==> if (#[trigger] ops[i]).0 {
            creates(ws[i], ws[i + 1], ops[i].1)
        } else {
            destroys(ws[i], ws[i + 1], ops[i].1, ws[i].entities().contains_key(ops[i].1))
        }
}

/// Over any run of creations and destructions the live identifiers are those of
/// `live_after`.
pub proof fn lemma_run_live<V>(ws: Seq<World<V>>, ops: Seq<(bool, Id)>)
    requires
        is_run(ws, ops),
    ensures
        ws.last().entities().dom() == live_after(ws[0].entities().dom(), ops),
    decreases ops.len(),
{
    if ops.len() > 0 {
        let n = ops.len() - 1;
        assert(is_run(ws.drop_last(), ops.drop_last())) by {
            assert forall|i: int| 0 <= i < ops.drop_last().len() implies if (#[trigger] ops.drop_last()[i]).0 {
                creates(ws.drop_last()[i], ws.drop_last()[i + 1], ops.drop_last()[i].1)
            } else {
                destroys(
                    ws.drop_last()[i],
                    ws.drop_last()[i + 1],
                    ops.drop_last()[i].1,
                    ws.drop_last()[i].entities().contains_key(ops.drop_last()[i].1),
                )
            } by {
                assert(ops[i] == ops.drop_last()[i]);
            }
        }
        lemma_run_live(ws.drop_last(), ops.drop_last());
        assert(ops[n] == ops.last());
        if ops[n].0 {
            assert(creates(ws[n], ws[n + 1], ops[n].1));
            assert(ws[n + 1].entities().dom() =~= ws[n].entities().dom().insert(ops[n].1));
        } else {
            assert(ws[n + 1].entities().dom() =~= ws[n].entities().dom().remove(ops[n].1));
        }
    }
}

/// Starting with no entities, an identifier is live after `ops` exactly when it was
/// created at some step and not destroyed at any later one.
pub proof fn lemma_live_is_created_minus_destroyed(ops: Seq<(bool, Id)>, id: Id)
    ensures
        live_after(Set::<Id>::empty(), ops).contains(id) <==> exists|i: int|
            0 <= i < ops.len() && #[trigger] ops[i] == (true, id) && forall|j: int|
                i < j < ops.len() ==> #[trigger] ops[j] != (false, id),
    decreases ops.len(),
{
    if ops.len() > 0 {
        let n = ops.len() - 1;
        let pre = ops.drop_last();
        lemma_live_is_created_minus_destroyed(pre, id);
        assert(ops.last() == ops[n]);
        if live_after(Set::<Id>::empty(), ops).contains(id) {
            if ops[n] == (true, id) {
                assert(forall|j: int| n < j < ops.len() ==> #[trigger] ops[j] != (false, id));
            } else {
                let i = choose|i: int|
                    0 <= i < pre.len() && #[trigger] pre[i] == (true, id) && forall|j: int|
                        i < j < pre.len() ==> #[trigger] pre[j] != (false, id);
                assert(ops[i] == pre[i]);
                assert forall|j: int| i < j < ops.len() implies #[trigger] ops[j] != (false, id) by {
                    if j < n {
                        assert(ops[j] == pre[j]);
                    }
                }
            }
        } else {
            assert forall|i: int|
                0 <= i < ops.len() && #[trigger] ops[i] == (true, id) implies exists|j: int|
                i < j < ops.len() && #[trigger] ops[j] == (false, id) by {
                if i == n {
                    assert(live_after(Set::<Id>::empty(), ops).contains(id));
                } else {
                    assert(pre[i] == ops[i]);
                    if ops[n] != (false, id) {
                        let j = choose|j: int| i < j < pre.len() && #[trigger] pre[j] == (false, id);
                        assert(ops[j] == pre[j]);
                    }
                }
            }
        }
    }
}

/// While the identifiers stay dense and below the largest one, `create` can always
/// hand out an identifier that is not live.
pub proof fn lemma_dense_can_create<V>(w: World<V>)
    requires
        w.dense(),
        w.entities().len() + w.free_list().len() <= u32::MAX,
    ensures
        w.can_create(),
{
    if w.free_list().len() == 0 {
        let n = w.entities().len();
        if w.entities().contains_key(n as Id) {
            assert((n as Id) < n);
        }
    }
}

/// After `destroy(id)` of a live entity, the next `create` hands `id` back (the most
/// recently freed identifier comes first), with no component kinds.
pub proof fn lemma_reuse_last_freed<V>(w1: World<V>, w2: World<V>, w3: World<V>, id: Id, r: Id)
    requires
        destroys(w1, w2, id, true),
        creates(w2, w3, r),
    ensures
        r == id,
        w3.entities()[r] == Set::<Kind>::empty(),
{
    assert(w2.free_list().last() == id);
}

/// After `attach(id, kind, v)` on a live entity, the store holds `v` under (id, kind).
pub proof fn lemma_attach_then_get<V>(
    w1: World<V>,
    w2: World<V>,
    id: Id,
    kind: Kind,
    v: V,
    r: Result<Option<V>, V>,
)
    requires
        attaches(w1, w2, id, kind, v, r),
        w1.entities().contains_key(id),
    ensures
        w2.components().contains_key((id, kind)),
        w2.components()[(id, kind)] == v,
        w2.entities()[id].contains(kind),
{
}

/// After `detach(id, kind)` the store holds nothing under (id, kind).
pub proof fn lemma_detach_then_get<V>(w1: World<V>, w2: World<V>, id: Id, kind: Kind, r: Option<V>)
    requires
        detaches(w1, w2, id, kind, r),
    ensures
        !w2.components().contains_key((id, kind)),
{
}

/// After `destroy(id)` no component of `id` is left, under any kind, and `id` is not live.
pub proof fn lemma_destroy_removes_components<V>(w1: World<V>, w2: World<V>, id: Id, r: bool)
    requires
        destroys(w1, w2, id, r),
    ensures
        forall|k: Kind| !(#[trigger] w2.components().contains_key((id, k))),
        !w2.entities().contains_key(id),
{
}

/// `es` is a run of an entity registry through `ops`: each step is an `add` that
/// returned the given identifier, or an `rm` of it.
pub open spec fn is_registry_run(es: Seq<EntityManager>, ops: Seq<(bool, Id)>) -> bool {
    &&& es.len() == ops.len() + 1
    &&& forall|i: int|
        0 <= i < ops.len() ==> if (#[trigger] ops[i]).0 {
            adds(es[i], es[i + 1], ops[i].1)
        } else {
            removes(es[i], es[i + 1], ops[i].1, es[i]@.contains_key(ops[i].1))
        }
}

/// Over any run of `add` and `rm` on a registry the live identifiers are those of
/// `live_after`; from an empty registry, those created and not destroyed since.
pub proof fn lemma_registry_run_live(es: Seq<EntityManager>, ops: Seq<(bool, Id)>)
    requires
        is_registry_run(es, ops),
    ensures
        es.last()@.dom() == live_after(es[0]@.dom(), ops),
    decreases ops.len(),
{
    if ops.len() > 0 {
        let n = ops.len() - 1;
        assert(is_registry_run(es.drop_last(), ops.drop_last())) by {
            assert forall|i: int| 0 <= i < ops.drop_last().len() implies if (#[trigger] ops.drop_last()[i]).0 {
                adds(es.drop_last()[i], es.drop_last()[i + 1], ops.drop_last()[i].1)
            } else {
                removes(
                    es.drop_last()[i],
                    es.drop_last()[i + 1],
                    ops.drop_last()[i].1,
                    es.drop_last()[i]@.contains_key(ops.drop_last()[i].1),
                )
            } by {
                assert(ops[i] == ops.drop_last()[i]);
            }
        }
        lemma_registry_run_live(es.drop_last(), ops.drop_last());
        assert(ops[n] == ops.last());
        if ops[n].0 {
            assert(adds(es[n], es[n + 1], ops[n].1));
            assert(es[n + 1]@.dom() =~= es[n]@.dom().insert(ops[n].1));
        } else {
            assert(es[n + 1]@.dom() =~= es[n]@.dom().remove(ops[n].1));
        }
    }
}

/// While a registry's identifiers stay dense and within range, `add` can always
/// hand out an identifier that is not live.
pub proof fn lemma_registry_dense_can_add(e: EntityManager)
    requires
        e.dense(),
        e@.len() + e.free_list().len() <= u32::MAX,
    ensures
        e.can_add(),
{
    if e.free_list().len() == 0 {
        let n = e@.len();
        if e@.contains_key(n as Id) {
            assert((n as Id) < n);
        }
    }
}

} // verus!
