use crate::component_manager::{without_kinds, ComponentManager};
use std::collections::HashMap;
use vstd::prelude::*;
use vstd::std_specs::hash::spec_keys_iter;
use vstd::std_specs::iter::IteratorSpec;

verus! {

broadcast use vstd::std_specs::hash::group_hash_axioms;

/// Entity identifier: dense, recycled after deletion.
pub type Id = u32;

/// Runtime tag of a component kind.
pub type Kind = u64;

/// The registry of live entities and, for each, the component kinds attached to it.
pub struct EntityManager {
    free: Vec<Id>,
    entities: HashMap<Id, Vec<Kind>>,
}

impl View for EntityManager {
    type V = Map<Id, Set<Kind>>;

    closed spec fn view(&self) -> Map<Id, Set<Kind>> {
        Map::new(|id: Id| self.entities@.contains_key(id), |id: Id| self.entities@[id]@.to_set())
    }
}

impl EntityManager {
    /// The identifiers waiting to be reused, the last one first.
    pub closed spec fn free_list(&self) -> Seq<Id> {
        self.free@
    }

    /// The set of live identifiers.
    pub open spec fn live(&self) -> Set<Id> {
        self@.dom()
    }

    /// Free identifiers are distinct and none of them is live;
    /// no kind is listed twice for an entity.
    pub closed spec fn wf(&self) -> bool {
        &&& self.free@.no_duplicates()
        &&& forall|i: int| 0 <= i < self.free@.len() ==> !self.entities@.contains_key(#[trigger] self.free@[i])
        &&& forall|id: Id| #[trigger] self.entities@.contains_key(id) ==> self.entities@[id]@.no_duplicates()
    }

    pub fn new() -> (r: Self)
        ensures
            r.wf(),
            r.dense(),
            r@ == Map::<Id, Set<Kind>>::empty(),
            r.free_list() == Seq::<Id>::empty(),
    {
        let r = EntityManager { free: Vec::new(), entities: HashMap::new() };
        assert(r@ =~= Map::<Id, Set<Kind>>::empty());
        r
    }

    /// The identifier that `add` hands out next.
    pub open spec fn next_id(&self) -> Id {
        if self.free_list().len() > 0 {
            self.free_list().last()
        } else {
            self@.len() as Id
        }
    }

    /// The live and the free identifiers together are exactly those below their count.
    pub open spec fn dense(&self) -> bool {
        let n = self@.len() + self.free_list().len();
        &&& forall|x: Id| #[trigger] self@.contains_key(x) ==> x < n
        &&& forall|i: int| 0 <= i < self.free_list().len() ==> #[trigger] self.free_list()[i] < n
        &&& forall|x: Id| x < n ==> #[trigger] self@.contains_key(x) || self.free_list().contains(x)
    }

    /// `add` can hand out an identifier that is not live: one waits for reuse, or
    /// the count of live entities is itself a free identifier.
    pub open spec fn can_add(&self) -> bool {
        self.free_list().len() > 0 || (self@.len() <= u32::MAX && !self@.contains_key(
            self@.len() as Id,
        ))
    }

    pub(crate) proof fn lemma_free_not_live(&self)
        requires
            self.wf(),
        ensures
            forall|i: int|
                0 <= i < self.free_list().len() ==> !self@.contains_key(#[trigger] self.free_list()[i]),
    {
    }

    pub(crate) proof fn lemma_finite(&self)
        ensures
            self@.dom().finite(),
    {
        self.lemma_view_len();
    }

    proof fn lemma_view_len(&self)
        ensures
            self@.len() == self.entities@.len(),
            self@.dom() == self.entities@.dom(),
    {
        assert(self@.dom() =~= self.entities@.dom());
    }

    /// Whether `add` can hand out an identifier that is not live.
    pub fn can_add_now(&self) -> (r: bool)
        ensures
            r == self.can_add(),
    {
        proof {
            self.lemma_view_len();
        }
        self.free.len() > 0 || (self.entities.len() <= u32::MAX as usize
            && !self.entities.contains_key(&(self.entities.len() as Id)))
    }

    /// Registers the given identifier with no component kinds; if it was waiting
    /// for reuse, it leaves the free list.
    pub fn add_gen(&mut self, id: Id)
        requires
            old(self).wf(),
            !old(self)@.contains_key(id),
        ensures
            final(self).wf(),
            final(self)@ == old(self)@.insert(id, Set::<Kind>::empty()),
            !old(self).free_list().contains(id) ==> final(self).free_list()
                == old(self).free_list(),
            old(self).free_list().contains(id) ==> exists|i: int|
                0 <= i < old(self).free_list().len() && old(self).free_list()[i] == id
                    && final(self).free_list() == old(self).free_list().remove(i),
    {
        let mut i: usize = 0;
        while i < self.free.len() && self.free[i] != id
            invariant
                i <= self.free@.len(),
                self.free@ == old(self).free@,
                self.entities@ == old(self).entities@,
                forall|j: int| 0 <= j < i ==> self.free@[j] != id,
            decreases self.free@.len() - i,
        {
            i = i + 1;
        }
        if i < self.free.len() {
            let ghost before = self.free@;
            self.free.remove(i);
            proof {
                assert forall|a: int, b: int|
                    0 <= a < b < self.free@.len() implies self.free@[a] != self.free@[b] by {
                    if a < i {
                        assert(self.free@[a] == before[a]);
                    } else {
                        assert(self.free@[a] == before[a + 1]);
                    }
                    if b < i {
                        assert(self.free@[b] == before[b]);
                    } else {
                        assert(self.free@[b] == before[b + 1]);
                    }
                }
                assert forall|j: int| 0 <= j < self.free@.len() implies self.free@[j] != id by {
                    if j < i {
                        assert(self.free@[j] == before[j]);
                    } else {
                        assert(self.free@[j] == before[j + 1]);
                        assert(before[j + 1] != before[i as int]);
                    }
                }
                assert forall|j: int| 0 <= j < self.free@.len() implies !old(self).entities@.contains_key(
                    #[trigger] self.free@[j],
                ) by {
                    if j < i {
                        assert(self.free@[j] == before[j]);
                    } else {
                        assert(self.free@[j] == before[j + 1]);
                    }
                }
            }
        } else {
            assert(!old(self).free@.contains(id));
        }
        let ks: Vec<Kind> = Vec::new();
        assert(ks@.to_set() =~= Set::<Kind>::empty());
        self.entities.insert(id, ks);
        assert(self@ =~= old(self)@.insert(id, Set::<Kind>::empty()));
    }

    /// Creates an entity: the most recently freed identifier if there is one,
    /// else the number of live entities.
    pub fn add(&mut self) -> (r: Id)
        requires
            old(self).wf(),
            old(self).can_add(),
        ensures
            final(self).wf(),
            r == old(self).next_id(),
            !old(self)@.contains_key(r),
            final(self)@ == old(self)@.insert(r, Set::<Kind>::empty()),
            final(self).free_list() == if old(self).free_list().len() > 0 {
                old(self).free_list().drop_last()
            } else {
                old(self).free_list()
            },
            old(self).dense() ==> final(self).dense(),
            adds(*old(self), *final(self), r),
    {
        proof {
            self.lemma_view_len();
        }
        let id = match self.free.pop() {
            Some(id) => id,
            None => self.entities.len() as Id,
        };
        proof {
            if old(self).free@.len() > 0 {
                assert(old(self).free@[old(self).free@.len() - 1] == id);
                assert forall|i: int| 0 <= i < self.free@.len() implies self.free@[i] != id by {
                    assert(old(self).free@[i] == self.free@[i]);
                }
                assert(!self.free@.contains(id));
            }
        }
        self.add_gen(id);
        proof {
            old(self).lemma_view_len();
            self.lemma_view_len();
            if old(self).dense() {
                let n = old(self)@.len() + old(self).free_list().len();
                let fl = old(self).free_list();
                assert(self@.dom() == old(self)@.dom().insert(id));
                assert(self@.len() == old(self)@.len() + 1);
                if fl.len() > 0 {
                    assert forall|x: Id| x < n implies #[trigger] self@.contains_key(x)
                        || self.free_list().contains(x) by {
                        if !old(self)@.contains_key(x) {
                            let i = choose|i: int| 0 <= i < fl.len() && fl[i] == x;
                            if i < fl.len() - 1 {
                                assert(self.free_list()[i] == x);
                            }
                        }
                    }
                    assert forall|i: int| 0 <= i < self.free_list().len() implies #[trigger] self.free_list()[i] < n by {
                        assert(self.free_list()[i] == fl[i]);
                    }
                    assert(fl[fl.len() - 1] < n);
                } else {
                    assert forall|x: Id| x < n + 1 implies #[trigger] self@.contains_key(x)
                        || self.free_list().contains(x) by {
                        if x < n {
                            assert(old(self)@.contains_key(x) || fl.contains(x));
                        }
                    }
                }
            }
        }
        id
    }

    /// Destroys entity `eid`: its identifier goes on the free list and its
    /// components leave the store. Returns whether it was live.
    pub fn rm<V>(&mut self, eid: Id, cm: &mut ComponentManager<V>) -> (r: bool)
        requires
            old(self).wf(),
        ensures
            final(self).wf(),
            r == old(self)@.contains_key(eid),
            r ==> final(self)@ == old(self)@.remove(eid) && final(self).free_list() == old(
                self,
            ).free_list().push(eid) && final(cm)@ == without_kinds(old(cm)@, eid, old(self)@[eid]),
            !r ==> final(self)@ == old(self)@ && final(self).free_list() == old(self).free_list()
                && final(cm)@ == old(cm)@,
            old(self).dense() ==> final(self).dense(),
            removes(*old(self), *final(self), eid, r),
    {
        let r = match self.entities.remove(&eid) {
            Some(kinds) => {
                self.free.push(eid);
                cm.remove_all(eid, &kinds);
                assert(self@ =~= old(self)@.remove(eid));
                true
            },
            None => {
                assert(self@ =~= old(self)@);
                assert(old(self)@.remove(eid) =~= old(self)@);
                false
            },
        };
        proof {
            old(self).lemma_view_len();
            self.lemma_view_len();
            if old(self).dense() && old(self)@.contains_key(eid) {
                let n = old(self)@.len() + old(self).free_list().len();
                assert(old(self)@.dom().remove(eid).len() == old(self)@.len() - 1);
                assert(self@.dom() == old(self)@.dom().remove(eid));
                assert forall|x: Id| x < n implies #[trigger] self@.contains_key(x)
                    || self.free_list().contains(x) by {
                    if x == eid {
                        assert(self.free_list()[self.free_list().len() - 1] == eid);
                    } else if !old(self)@.contains_key(x) {
                        let i = choose|i: int| 0 <= i < old(self).free_list().len() && old(self).free_list()[i] == x;
                        assert(self.free_list()[i] == x);
                    }
                }
                assert forall|i: int| 0 <= i < self.free_list().len() implies #[trigger] self.free_list()[i] < n by {
                    if i < old(self).free_list().len() {
                        assert(self.free_list()[i] == old(self).free_list()[i]);
                    }
                }
            }
        }
        r
    }

    /// The component kinds of entity `eid`, if it is live.
    pub fn get(&self, eid: Id) -> (r: Option<&Vec<Kind>>)
        ensures
            r matches Some(ks) ==> self@.contains_key(eid) && ks@.to_set() == self@[eid] && (
            self.wf() ==> ks@.no_duplicates()),
            r is None ==> !self@.contains_key(eid),
    {
        self.entities.get(&eid)
    }

    /// Whether entity `eid` is live and has a component of kind `kind`.
    pub fn has_kind(&self, eid: Id, kind: Kind) -> (r: bool)
        ensures
            r == (self@.contains_key(eid) && self@[eid].contains(kind)),
    {
        match self.entities.get(&eid) {
            Some(ks) => position(ks, kind).is_some(),
            None => false,
        }
    }

    /// The live identifiers, each once.
    pub fn entities(&self) -> (r: Vec<Id>)
        ensures
            r@.to_set() == self.live(),
            r@.no_duplicates(),
    {
        let mut r: Vec<Id> = Vec::new();
        let ghost all = spec_keys_iter(&self.entities).remaining().unref();
        for id in it: self.entities.keys()
            invariant
                it.seq().unref() == all,
                r@ == all.take(it.index()),
                all.to_set() == self.entities@.dom(),
                all.no_duplicates(),
        {
            r.push(*id);
        }
        proof {
            assert(r@ =~= all);
            assert(self@.dom() =~= self.entities@.dom());
        }
        r
    }

    /// Records that entity `id` has a component of kind `kind`.
    pub(crate) fn add_kind(&mut self, id: Id, kind: Kind)
        requires
            old(self).wf(),
            old(self)@.contains_key(id),
        ensures
            final(self).wf(),
            final(self)@ == old(self)@.insert(id, old(self)@[id].insert(kind)),
            final(self).free_list() == old(self).free_list(),
    {
        let mut ks = self.entities.remove(&id).unwrap();
        let ghost before = ks@;
        if position(&ks, kind).is_none() {
            ks.push(kind);
            proof {
                before.lemma_push_to_set_commute(kind);
                assert forall|i: int, j: int|
                    0 <= i < ks@.len() && 0 <= j < ks@.len() && i != j implies ks@[i] != ks@[j] by {
                    if i < before.len() && j < before.len() {
                        assert(ks@[i] == before[i] && ks@[j] == before[j]);
                    }
                }
            }
        } else {
            assert(before.to_set().insert(kind) =~= before.to_set());
        }
        self.entities.insert(id, ks);
        assert(self@ =~= old(self)@.insert(id, old(self)@[id].insert(kind)));
    }

    /// Records that entity `id` no longer has a component of kind `kind`.
    pub(crate) fn remove_kind(&mut self, id: Id, kind: Kind)
        requires
            old(self).wf(),
            old(self)@.contains_key(id),
        ensures
            final(self).wf(),
            final(self)@ == old(self)@.insert(id, old(self)@[id].remove(kind)),
            final(self).free_list() == old(self).free_list(),
    {
        let mut ks = self.entities.remove(&id).unwrap();
        let ghost before = ks@;
        match position(&ks, kind) {
            Some(i) => {
                ks.remove(i);
                proof {
                    assert forall|x: Kind| ks@.contains(x) <==> before.to_set().remove(kind).contains(x) by {
                        if ks@.contains(x) {
                            let j = choose|j: int| 0 <= j < ks@.len() && ks@[j] == x;
                            if j < i {
                                assert(before[j] == x);
                            } else {
                                assert(before[j + 1] == x);
                            }
                        }
                        if before.to_set().remove(kind).contains(x) {
                            let j = choose|j: int| 0 <= j < before.len() && before[j] == x;
                            if j < i {
                                assert(ks@[j] == x);
                            } else {
                                assert(ks@[j - 1] == x);
                            }
                        }
                    }
                    assert(ks@.to_set() =~= before.to_set().remove(kind));
                }
            },
            None => {
                assert(before.to_set().remove(kind) =~= before.to_set());
            },
        }
        self.entities.insert(id, ks);
        assert(self@ =~= old(self)@.insert(id, old(self)@[id].remove(kind)));
    }
}

/// The index of `k` in `ks`, if it occurs there.
fn position(ks: &Vec<Kind>, k: Kind) -> (r: Option<usize>)
    ensures
        r matches Some(i) ==> i < ks@.len() && ks@[i as int] == k,
        r is None ==> !ks@.contains(k),
{
    let mut i: usize = 0;
    while i < ks.len()
        invariant
            i <= ks@.len(),
            forall|j: int| 0 <= j < i ==> ks@[j] != k,
        decreases ks@.len() - i,
    {
        if ks[i] == k {
            return Some(i);
        }
        i = i + 1;
    }
    None
}

/// `e2` is `e1` after `add` returned `r`.
pub open spec fn adds(e1: EntityManager, e2: EntityManager, r: Id) -> bool {
    &&& r == e1.next_id()
    &&& !e1@.contains_key(r)
    &&& e2@ == e1@.insert(r, Set::<Kind>::empty())
    &&& e2.free_list() == if e1.free_list().len() > 0 {
        e1.free_list().drop_last()
    } else {
        e1.free_list()
    }
}

/// `e2` is `e1` after `rm(id, ..)` returned `r`.
pub open spec fn removes(e1: EntityManager, e2: EntityManager, id: Id, r: bool) -> bool {
    &&& r == e1@.contains_key(id)
    &&& e2@ == e1@.remove(id)
    &&& e2.free_list() == if r {
        e1.free_list().push(id)
    } else {
        e1.free_list()
    }
}

} // verus!
