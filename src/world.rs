use crate::component_manager::{without_kinds, ComponentManager};
use crate::entity_manager::{EntityManager, Id, Kind};
use vstd::prelude::*;

verus! {

/// A kind is recorded for an entity exactly when the store holds a value for the pair.
pub open spec fn consistent<V>(em: &EntityManager, cm: &ComponentManager<V>) -> bool {
    forall|id: Id, k: Kind|
        #![trigger cm@.contains_key((id, k))]
        #![trigger em@[id].contains(k)]
        cm@.contains_key((id, k)) <==> em@.contains_key(id) && em@[id].contains(k)
}

/// The store `m` without any value of entity `id`.
pub open spec fn without_entity<V>(m: Map<(Id, Kind), V>, id: Id) -> Map<(Id, Kind), V> {
    Map::new(|p: (Id, Kind)| m.contains_key(p) && p.0 != id, |p: (Id, Kind)| m[p])
}

/// The entity registry and the component store, updated together.
pub struct World<V> {
    em: EntityManager,
    cm: ComponentManager<V>,
}

impl<V> World<V> {
    /// Each live identifier with the kinds of the components attached to it.
    pub closed spec fn entities(&self) -> Map<Id, Set<Kind>> {
        self.em@
    }

    /// The component values, keyed by (entity identifier, kind).
    pub closed spec fn components(&self) -> Map<(Id, Kind), V> {
        self.cm@
    }

    /// The identifiers waiting to be reused, the next one last.
    pub closed spec fn free_list(&self) -> Seq<Id> {
        self.em.free_list()
    }

    /// The registry is well formed and agrees with the store.
    pub closed spec fn wf(&self) -> bool {
        self.em.wf() && consistent(&self.em, &self.cm)
    }

    /// In a well-formed world a kind is listed for an entity exactly when the store
    /// holds a value for the pair, and no free identifier is live.
    pub proof fn lemma_consistent(&self)
        requires
            self.wf(),
        ensures
            forall|id: Id, k: Kind|
                #![trigger self.components().contains_key((id, k))]
                #![trigger self.entities()[id].contains(k)]
                self.components().contains_key((id, k)) <==> self.entities().contains_key(id)
                    && self.entities()[id].contains(k),
            forall|i: int|
                0 <= i < self.free_list().len() ==> !self.entities().contains_key(
                    #[trigger] self.free_list()[i],
                ),
    {
        self.em.lemma_free_not_live();
    }

    /// `create` can hand out an identifier that is not live.
    pub open spec fn can_create(&self) -> bool {
        self.free_list().len() > 0 || (self.entities().len() <= u32::MAX
            && !self.entities().contains_key(self.entities().len() as Id))
    }

    /// The identifier that `create` hands out next: the most recently freed one,
    /// else the number of live entities.
    pub open spec fn next_id(&self) -> Id {
        if self.free_list().len() > 0 {
            self.free_list().last()
        } else {
            self.entities().len() as Id
        }
    }

    /// The live and the free identifiers together are exactly those below their count.
    pub open spec fn dense(&self) -> bool {
        let n = self.entities().len() + self.free_list().len();
        &&& forall|x: Id| #[trigger] self.entities().contains_key(x) ==> x < n
        &&& forall|i: int| 0 <= i < self.free_list().len() ==> #[trigger] self.free_list()[i] < n
        &&& forall|x: Id| x < n ==> #[trigger] self.entities().contains_key(x) || self.free_list().contains(x)
    }

    pub fn new() -> (r: Self)
        ensures
            r.wf(),
            r.dense(),
            r.entities() == Map::<Id, Set<Kind>>::empty(),
            r.components() == Map::<(Id, Kind), V>::empty(),
            r.free_list() == Seq::<Id>::empty(),
    {
        World { em: EntityManager::new(), cm: ComponentManager::new() }
    }

    pub fn entity_manager(&self) -> (r: &EntityManager)
        requires
            self.wf(),
        ensures
            r.wf(),
            r@ == self.entities(),
            r.free_list() == self.free_list(),
    {
        &self.em
    }

    pub fn component_manager(&self) -> (r: &ComponentManager<V>)
        ensures
            r@ == self.components(),
    {
        &self.cm
    }

    /// Whether `create` can hand out an identifier that is not live.
    pub fn can_create_now(&self) -> (r: bool)
        ensures
            r == self.can_create(),
    {
        self.em.can_add_now()
    }

    /// Creates an entity with no components, reusing the most recently freed identifier.
    pub fn create(&mut self) -> (r: Id)
        requires
            old(self).wf(),
            old(self).can_create(),
        ensures
            final(self).wf(),
            creates(*old(self), *final(self), r),
            old(self).dense() ==> final(self).dense(),
    {
        assert(self.entities() == self.em@ && self.free_list() == self.em.free_list());
        assert(self.dense() ==> self.em.dense());
        let r = self.em.add();
        r
    }

    /// Registers the given identifier as a live entity with no components; if it
    /// was waiting for reuse, it leaves the free list.
    pub fn create_with(&mut self, id: Id)
        requires
            old(self).wf(),
            !old(self).entities().contains_key(id),
        ensures
            final(self).wf(),
            final(self).entities() == old(self).entities().insert(id, Set::<Kind>::empty()),
            final(self).components() == old(self).components(),
            !old(self).free_list().contains(id) ==> final(self).free_list()
                == old(self).free_list(),
            old(self).free_list().contains(id) ==> exists|i: int|
                0 <= i < old(self).free_list().len() && old(self).free_list()[i] == id
                    && final(self).free_list() == old(self).free_list().remove(i),
    {
        self.em.add_gen(id)
    }

    /// Destroys entity `id` with all of its components; returns whether it was live.
    pub fn destroy(&mut self, id: Id) -> (r: bool)
        requires
            old(self).wf(),
        ensures
            final(self).wf(),
            destroys(*old(self), *final(self), id, r),
            old(self).dense() ==> final(self).dense(),
    {
        assert(self.entities() == self.em@ && self.free_list() == self.em.free_list());
        assert(self.dense() ==> self.em.dense());
        let r = self.em.rm(id, &mut self.cm);
        assert forall|p: (Id, Kind)| p.0 == id implies !old(self).cm@.contains_key(p) || (r
            && old(self).em@[id].contains(p.1)) by {
            assert(old(self).cm@.contains_key((p.0, p.1)) == old(self).cm@.contains_key(p));
        }
        assert(self.cm@ =~= without_entity(old(self).cm@, id));
        if !r {
            assert(old(self).entities().remove(id) =~= old(self).entities());
        }
        r
    }

    /// Inserts or replaces the component of kind `kind` of entity `id`. Returns
    /// `Ok` with the value replaced, or `Err` with `value` when `id` is not live.
    pub fn attach(&mut self, id: Id, kind: Kind, value: V) -> (r: Result<Option<V>, V>)
        requires
            old(self).wf(),
        ensures
            final(self).wf(),
            attaches(*old(self), *final(self), id, kind, value, r),
    {
        if self.em.get(id).is_none() {
            return Err(value);
        }
        self.em.add_kind(id, kind);
        let r = self.cm.insert(id, kind, value);
        Ok(r)
    }

    /// Replaces the existing component of kind `kind` of entity `id` with `value`.
    /// Returns `Ok` with the value replaced, or `Err` with `value` when there is no
    /// such component; the kinds of every entity stay as they were.
    pub fn replace(&mut self, id: Id, kind: Kind, value: V) -> (r: Result<V, V>)
        requires
            old(self).wf(),
        ensures
            final(self).wf(),
            final(self).entities() == old(self).entities(),
            final(self).free_list() == old(self).free_list(),
            old(self).components().contains_key((id, kind)) ==> r == Ok::<V, V>(
                old(self).components()[(id, kind)],
            ) && final(self).components() == old(self).components().insert((id, kind), value),
            !old(self).components().contains_key((id, kind)) ==> r == Err::<V, V>(value)
                && final(self).components() == old(self).components(),
    {
        if !self.em.has_kind(id, kind) {
            return Err(value);
        }
        let prev = self.cm.insert(id, kind, value);
        Ok(prev.unwrap())
    }

    /// Removes and returns the component of kind `kind` of entity `id`, if there is one.
    pub fn detach(&mut self, id: Id, kind: Kind) -> (r: Option<V>)
        requires
            old(self).wf(),
        ensures
            final(self).wf(),
            detaches(*old(self), *final(self), id, kind, r),
    {
        if self.em.get(id).is_none() {
            assert(old(self).components().remove((id, kind)) =~= old(self).components());
            return None;
        }
        self.em.remove_kind(id, kind);
        self.cm.remove(id, kind)
    }

    /// Shared access to the component of kind `kind` of entity `id`, if there is one.
    pub fn get(&self, id: Id, kind: Kind) -> (r: Option<&V>)
        ensures
            r matches Some(v) ==> self.components().contains_key((id, kind)) && *v
                == self.components()[(id, kind)],
            r is None ==> !self.components().contains_key((id, kind)),
    {
        self.cm.get(id, kind)
    }

    /// Whether entity `id` has a component of kind `kind`.
    pub fn has(&self, id: Id, kind: Kind) -> (r: bool)
        ensures
            r == (self.entities().contains_key(id) && self.entities()[id].contains(kind)),
    {
        self.em.has_kind(id, kind)
    }

    /// The component kinds of entity `id`, if it is live.
    pub fn kinds_of(&self, id: Id) -> (r: Option<&Vec<Kind>>)
        ensures
            r matches Some(ks) ==> self.entities().contains_key(id) && ks@.to_set()
                == self.entities()[id],
            r is None ==> !self.entities().contains_key(id),
    {
        self.em.get(id)
    }

    /// Entity `id` is live and has a component of every kind in `kinds`.
    pub open spec fn has_all(&self, id: Id, kinds: Seq<Kind>) -> bool {
        &&& self.entities().contains_key(id)
        &&& forall|i: int| 0 <= i < kinds.len() ==> self.entities()[id].contains(#[trigger] kinds[i])
    }

    /// Whether entity `id` is live and has a component of every kind in `kinds`.
    pub fn has_kinds(&self, id: Id, kinds: &Vec<Kind>) -> (r: bool)
        ensures
            r == self.has_all(id, kinds@),
    {
        if self.em.get(id).is_none() {
            return false;
        }
        let mut i: usize = 0;
        while i < kinds.len()
            invariant
                self.entities().contains_key(id),
                i <= kinds@.len(),
                forall|j: int| 0 <= j < i ==> self.entities()[id].contains(#[trigger] kinds@[j]),
            decreases kinds@.len() - i,
        {
            if !self.has(id, kinds[i]) {
                return false;
            }
            i = i + 1;
        }
        true
    }

    /// The live entities that have a component of every kind in `kinds`, each once.
    /// Computed afresh on each call; no order is promised.
    pub fn query(&self, kinds: &Vec<Kind>) -> (r: Vec<Id>)
        ensures
            r@.no_duplicates(),
            forall|id: Id| #[trigger] r@.contains(id) <==> self.has_all(id, kinds@),
    {
        let ids = self.ids();
        let mut r: Vec<Id> = Vec::new();
        let mut i: usize = 0;
        while i < ids.len()
            invariant
                ids@.to_set() == self.entities().dom(),
                ids@.no_duplicates(),
                i <= ids@.len(),
                r@.no_duplicates(),
                forall|id: Id| #[trigger] r@.contains(id) <==> (ids@.take(i as int).contains(id)
                    && self.has_all(id, kinds@)),
            decreases ids@.len() - i,
        {
            let id = ids[i];
            proof {
                assert(ids@.take(i + 1) =~= ids@.take(i as int).push(id));
                if ids@.take(i as int).contains(id) {
                    let j = choose|j: int| 0 <= j < i && ids@.take(i as int)[j] == id;
                    assert(ids@[j] == ids@[i as int]);
                }
            }
            if self.has_kinds(id, kinds) {
                let ghost prev = r@;
                assert(!prev.contains(id));
                r.push(id);
                proof {
                    assert forall|a: int, b: int| 0 <= a < b < r@.len() implies r@[a] != r@[b] by {
                        assert(r@[a] == prev[a]);
                        if b == r@.len() - 1 {
                            assert(prev.contains(prev[a]));
                        } else {
                            assert(r@[b] == prev[b]);
                        }
                    }
                    assert forall|x: Id| #[trigger] r@.contains(x) <==> (ids@.take(i + 1).contains(x)
                        && self.has_all(x, kinds@)) by {
                        let t0 = ids@.take(i as int);
                        let t1 = ids@.take(i + 1);
                        if r@.contains(x) && x != id {
                            let j = choose|j: int| 0 <= j < r@.len() && r@[j] == x;
                            assert(prev[j] == x);
                        }
                        if prev.contains(x) {
                            let j = choose|j: int| 0 <= j < prev.len() && prev[j] == x;
                            assert(r@[j] == x);
                        }
                        if t1.contains(x) && x != id {
                            let j = choose|j: int| 0 <= j < t1.len() && t1[j] == x;
                            assert(t0[j] == x);
                        }
                        if t0.contains(x) {
                            let j = choose|j: int| 0 <= j < t0.len() && t0[j] == x;
                            assert(t1[j] == x);
                        }
                        assert(t1[i as int] == id);
                        assert(r@[r@.len() - 1] == id);
                    }
                }
            }
            i = i + 1;
        }
        proof {
            assert(ids@.take(ids@.len() as int) =~= ids@);
            assert forall|id: Id| self.has_all(id, kinds@) implies ids@.contains(id) by {
                assert(ids@.to_set().contains(id));
            }
        }
        r
    }

    /// The live identifiers, each once.
    pub fn ids(&self) -> (r: Vec<Id>)
        ensures
            r@.to_set() == self.entities().dom(),
            r@.no_duplicates(),
    {
        self.em.entities()
    }
}

/// `w2` is `w1` after `create` returned `r`.
pub open spec fn creates<V>(w1: World<V>, w2: World<V>, r: Id) -> bool {
    &&& r == w1.next_id()
    &&& !w1.entities().contains_key(r)
    &&& w2.entities() == w1.entities().insert(r, Set::<Kind>::empty())
    &&& w2.components() == w1.components()
    &&& w2.free_list() == if w1.free_list().len() > 0 {
        w1.free_list().drop_last()
    } else {
        w1.free_list()
    }
}

/// `w2` is `w1` after `destroy(id)` returned `r`.
pub open spec fn destroys<V>(w1: World<V>, w2: World<V>, id: Id, r: bool) -> bool {
    &&& r == w1.entities().contains_key(id)
    &&& w2.entities() == w1.entities().remove(id)
    &&& w2.components() == without_entity(w1.components(), id)
    &&& w2.free_list() == if r {
        w1.free_list().push(id)
    } else {
        w1.free_list()
    }
}

/// `w2` is `w1` after `attach(id, kind, value)` returned `r`.
pub open spec fn attaches<V>(
    w1: World<V>,
    w2: World<V>,
    id: Id,
    kind: Kind,
    value: V,
    r: Result<Option<V>, V>,
) -> bool {
    &&& w1.entities().contains_key(id) ==> r == Ok::<Option<V>, V>(w1.components().get((id, kind)))
        && w2.components() == w1.components().insert((id, kind), value) && w2.entities()
        == w1.entities().insert(id, w1.entities()[id].insert(kind))
    &&& !w1.entities().contains_key(id) ==> r == Err::<Option<V>, V>(value) && w2.components()
        == w1.components() && w2.entities() == w1.entities()
    &&& w2.free_list() == w1.free_list()
}

/// `w2` is `w1` after `detach(id, kind)` returned `r`.
pub open spec fn detaches<V>(w1: World<V>, w2: World<V>, id: Id, kind: Kind, r: Option<V>) -> bool {
    &&& r == w1.components().get((id, kind))
    &&& w2.components() == w1.components().remove((id, kind))
    &&& w2.entities() == if w1.entities().contains_key(id) {
        w1.entities().insert(id, w1.entities()[id].remove(kind))
    } else {
        w1.entities()
    }
    &&& w2.free_list() == w1.free_list()
}

} // verus!
