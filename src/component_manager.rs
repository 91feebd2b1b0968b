use crate::entity_manager::{Id, Kind};
use std::collections::HashMap;
use vstd::prelude::*;

verus! {

broadcast use vstd::std_specs::hash::group_hash_axioms;

/// A value that can be attached to an entity and shared across threads.
pub trait Component: Send + Sync + 'static {
}

/// The store of component values, keyed by (entity identifier, component kind).
pub struct ComponentManager<V> {
    components: HashMap<Kind, HashMap<Id, V>>,
}

impl<V> View for ComponentManager<V> {
    type V = Map<(Id, Kind), V>;

    closed spec fn view(&self) -> Map<(Id, Kind), V> {
        Map::new(
            |p: (Id, Kind)|
                self.components@.contains_key(p.1) && self.components@[p.1]@.contains_key(p.0),
            |p: (Id, Kind)| self.components@[p.1]@[p.0],
        )
    }
}

/// The store `m` without the values of entity `id` under any of the kinds in `kinds`.
pub open spec fn without_kinds<V>(m: Map<(Id, Kind), V>, id: Id, kinds: Set<Kind>) -> Map<
    (Id, Kind),
    V,
> {
    Map::new(|p: (Id, Kind)| m.contains_key(p) && !(p.0 == id && kinds.contains(p.1)), |p: (Id, Kind)| m[p])
}

impl<V> ComponentManager<V> {
    pub fn new() -> (r: Self)
        ensures
            r@ == Map::<(Id, Kind), V>::empty(),
    {
        let r = ComponentManager { components: HashMap::new() };
        assert(r@ =~= Map::<(Id, Kind), V>::empty());
        r
    }

    /// Inserts or replaces the value under (id, kind); returns the value it replaced.
    pub(crate) fn insert(&mut self, id: Id, kind: Kind, value: V) -> (r: Option<V>)
        ensures
            final(self)@ == old(self)@.insert((id, kind), value),
            r == old(self)@.get((id, kind)),
    {
        let mut inner = match self.components.remove(&kind) {
            Some(m) => m,
            None => HashMap::new(),
        };
        let r = inner.insert(id, value);
        self.components.insert(kind, inner);
        assert(self@ =~= old(self)@.insert((id, kind), value));
        r
    }

    /// Removes and returns the value under (id, kind), if there is one.
    pub(crate) fn remove(&mut self, id: Id, kind: Kind) -> (r: Option<V>)
        ensures
            final(self)@ == old(self)@.remove((id, kind)),
            r == old(self)@.get((id, kind)),
    {
        match self.components.remove(&kind) {
            Some(mut inner) => {
                let r = inner.remove(&id);
                self.components.insert(kind, inner);
                assert(self@ =~= old(self)@.remove((id, kind)));
                r
            },
            None => {
                assert(self@ =~= old(self)@.remove((id, kind)));
                None
            },
        }
    }

    /// Removes every value of entity `id` under the kinds listed in `kinds`.
    pub(crate) fn remove_all(&mut self, id: Id, kinds: &Vec<Kind>)
        ensures
            final(self)@ == without_kinds(old(self)@, id, kinds@.to_set()),
    {
        let mut i: usize = 0;
        while i < kinds.len()
            invariant
                i <= kinds@.len(),
                self@ == without_kinds(old(self)@, id, kinds@.subrange(0, i as int).to_set()),
            decreases kinds@.len() - i,
        {
            let k = kinds[i];
            self.remove(id, k);
            proof {
                assert(kinds@.subrange(0, i + 1) =~= kinds@.subrange(0, i as int).push(k));
                kinds@.subrange(0, i as int).lemma_push_to_set_commute(k);
            }
            i = i + 1;
            assert(self@ =~= without_kinds(old(self)@, id, kinds@.subrange(0, i as int).to_set()));
        }
        assert(kinds@.subrange(0, kinds@.len() as int) =~= kinds@);
    }

    /// Shared access to the value under (id, kind), if there is one.
    pub fn get(&self, id: Id, kind: Kind) -> (r: Option<&V>)
        ensures
            r matches Some(v) ==> self@.contains_key((id, kind)) && *v == self@[(id, kind)],
            r is None ==> !self@.contains_key((id, kind)),
    {
        match self.components.get(&kind) {
            Some(inner) => inner.get(&id),
            None => None,
        }
    }
}

} // verus!
