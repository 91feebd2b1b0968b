use crate::entity_manager::Id;
use vstd::prelude::*;

verus! {

/// An entity with the numeric layer it is drawn on.
pub type Layered = (Id, i64);

/// The identifiers of `s`, in its order.
pub open spec fn ids_of(s: Seq<Layered>) -> Seq<Id> {
    s.map_values(|p: Layered| p.0)
}

/// `a` may come before `b`: a lower layer first, and within a layer the smaller identifier.
pub open spec fn precedes(a: Layered, b: Layered) -> bool {
    a.1 < b.1 || (a.1 == b.1 && a.0 <= b.0)
}

/// Every element may come before every later one.
pub open spec fn layer_sorted(s: Seq<Layered>) -> bool {
    forall|i: int, j: int| 0 <= i < j < s.len() ==> precedes(#[trigger] s[i], #[trigger] s[j])
}

fn precedes_exec(a: Layered, b: Layered) -> (r: bool)
    ensures
        r == precedes(a, b),
{
    a.1 < b.1 || (a.1 == b.1 && a.0 <= b.0)
}

/// Orders `items` by ascending layer, breaking ties by ascending identifier.
pub fn sort_by_layer(items: &Vec<Layered>) -> (r: Vec<Layered>)
    ensures
        r@.to_multiset() == items@.to_multiset(),
        r@.len() == items@.len(),
        layer_sorted(r@),
{
    broadcast use vstd::seq_lib::group_to_multiset_ensures;

    let mut r: Vec<Layered> = Vec::new();
    let mut i: usize = 0;
    assert(items@.take(0) =~= r@);
    while i < items.len()
        invariant
            i <= items@.len(),
            r@.to_multiset() == items@.take(i as int).to_multiset(),
            layer_sorted(r@),
        decreases items@.len() - i,
    {
        let x = items[i];
        let mut pos: usize = 0;
        while pos < r.len() && precedes_exec(r[pos], x)
            invariant
                pos <= r@.len(),
                forall|j: int| 0 <= j < pos ==> precedes(#[trigger] r@[j], x),
            decreases r@.len() - pos,
        {
            pos = pos + 1;
        }
        let ghost before = r@;
        r.insert(pos, x);
        proof {
            assert(items@.take(i + 1) =~= items@.take(i as int).push(x));
            assert(r@ == before.insert(pos as int, x));
            vstd::seq_lib::to_multiset_insert(before, pos as int, x);
            vstd::seq_lib::to_multiset_build(items@.take(i as int), x);
            assert(r@.to_multiset() =~= items@.take(i + 1).to_multiset());
            assert forall|a: int, b: int| 0 <= a < b < r@.len() implies precedes(
                #[trigger] r@[a],
                #[trigger] r@[b],
            ) by {
                if b < pos {
                    assert(r@[a] == before[a] && r@[b] == before[b]);
                } else if b == pos {
                    assert(r@[a] == before[a]);
                } else if a == pos {
                    assert(r@[b] == before[b - 1]);
                    assert(!precedes(before[pos as int], x));
                    if b - 1 > pos {
                        assert(precedes(before[pos as int], before[b - 1]));
                    }
                } else if a < pos {
                    assert(r@[a] == before[a] && r@[b] == before[b - 1]);
                } else {
                    assert(r@[a] == before[a - 1] && r@[b] == before[b - 1]);
                }
            }
        }
        i = i + 1;
    }
    assert(items@.take(items@.len() as int) =~= items@);
    proof {
        vstd::seq_lib::to_multiset_len(r@);
        vstd::seq_lib::to_multiset_len(items@);
    }
    r
}

/// The draw order is determined by the items alone: two layer-sorted arrangements of
/// the same items are the same sequence, whatever order the items came in.
pub proof fn lemma_layer_order_unique(a: Seq<Layered>, b: Seq<Layered>)
    requires
        layer_sorted(a),
        layer_sorted(b),
        a.to_multiset() == b.to_multiset(),
    ensures
        a == b,
    decreases a.len(),
{
    broadcast use vstd::seq_lib::group_to_multiset_ensures;

    vstd::seq_lib::to_multiset_len(a);
    vstd::seq_lib::to_multiset_len(b);
    if a.len() == 0 {
        assert(a =~= b);
    } else {
        let x = a[0];
        let y = b[0];
        vstd::seq_lib::to_multiset_contains(a, y);
        vstd::seq_lib::to_multiset_contains(b, y);
        vstd::seq_lib::to_multiset_contains(a, x);
        vstd::seq_lib::to_multiset_contains(b, x);
        assert(b.contains(y));
        let j = choose|j: int| 0 <= j < a.len() && a[j] == y;
        if j > 0 {
            assert(precedes(a[0], a[j]));
        }
        assert(a.contains(x));
        let k = choose|k: int| 0 <= k < b.len() && b[k] == x;
        if k > 0 {
            assert(precedes(b[0], b[k]));
        }
        assert(x == y);
        vstd::seq_lib::to_multiset_remove(a, 0);
        vstd::seq_lib::to_multiset_remove(b, 0);
        assert(a.remove(0) =~= a.drop_first());
        assert(b.remove(0) =~= b.drop_first());
        assert(layer_sorted(a.drop_first())) by {
            assert forall|p: int, q: int| 0 <= p < q < a.drop_first().len() implies precedes(
                #[trigger] a.drop_first()[p],
                #[trigger] a.drop_first()[q],
            ) by {
                assert(a.drop_first()[p] == a[p + 1] && a.drop_first()[q] == a[q + 1]);
            }
        }
        assert(layer_sorted(b.drop_first())) by {
            assert forall|p: int, q: int| 0 <= p < q < b.drop_first().len() implies precedes(
                #[trigger] b.drop_first()[p],
                #[trigger] b.drop_first()[q],
            ) by {
                assert(b.drop_first()[p] == b[p + 1] && b.drop_first()[q] == b[q + 1]);
            }
        }
        lemma_layer_order_unique(a.drop_first(), b.drop_first());
        assert forall|i: int| 0 <= i < a.len() implies a[i] == b[i] by {
            if i > 0 {
                assert(a[i] == a.drop_first()[i - 1] && b[i] == b.drop_first()[i - 1]);
            }
        }
        assert(a =~= b);
    }
}

} // verus!
