use crate::entity_manager::Kind;
use vstd::prelude::*;

verus! {

/// Hands out component kind tags: one per type key, in order of first request.
pub struct KindRegistry {
    keys: Vec<u64>,
}

impl View for KindRegistry {
    type V = Seq<u64>;

    /// The type keys, each at the position of its tag.
    closed spec fn view(&self) -> Seq<u64> {
        self.keys@
    }
}

impl KindRegistry {
    /// No type key has two tags.
    pub closed spec fn wf(&self) -> bool {
        self.keys@.no_duplicates()
    }

    pub fn new() -> (r: Self)
        ensures
            r.wf(),
            r@ == Seq::<u64>::empty(),
    {
        KindRegistry { keys: Vec::new() }
    }

    /// The tag of the type with key `type_key`: the one given before, or else the
    /// next unused one.
    pub fn tag_of(&mut self, type_key: u64) -> (r: Kind)
        requires
            old(self).wf(),
            old(self)@.len() < u64::MAX,
        ensures
            final(self).wf(),
            r < final(self)@.len(),
            final(self)@[r as int] == type_key,
            old(self)@.contains(type_key) ==> final(self)@ == old(self)@,
            !old(self)@.contains(type_key) ==> final(self)@ == old(self)@.push(type_key),
    {
        let mut i: usize = 0;
        while i < self.keys.len()
            invariant
                i <= self.keys@.len(),
                self.keys@ == old(self).keys@,
                self.wf(),
                forall|j: int| 0 <= j < i ==> self.keys@[j] != type_key,
            decreases self.keys@.len() - i,
        {
            if self.keys[i] == type_key {
                return i as Kind;
            }
            i = i + 1;
        }
        let r = self.keys.len() as Kind;
        self.keys.push(type_key);
        proof {
            assert forall|a: int, b: int| 0 <= a < b < self.keys@.len() implies self.keys@[a]
                != self.keys@[b] by {
                if b < old(self).keys@.len() {
                    assert(self.keys@[a] == old(self).keys@[a] && self.keys@[b] == old(self).keys@[b]);
                } else {
                    assert(self.keys@[a] == old(self).keys@[a]);
                }
            }
        }
        r
    }
}

/// Distinct type keys never share a tag, and a type keeps its tag.
pub proof fn lemma_tags_distinct(reg: KindRegistry, a: int, b: int)
    requires
        reg.wf(),
        0 <= a < reg@.len(),
        0 <= b < reg@.len(),
        a != b,
    ensures
        reg@[a] != reg@[b],
{
}

} // verus!
