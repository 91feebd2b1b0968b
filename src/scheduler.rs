use crate::world::World;
use vstd::prelude::*;

verus! {

/// `n` after one more hook call, wrapping at the largest count.
pub open spec fn bumped(n: u64) -> u64 {
    if n == u64::MAX {
        0
    } else {
        (n + 1) as u64
    }
}

/// A unit of per-event logic. Every call of a hook counts one run.
pub trait System<E, V> {
    /// How many times the hooks have been called.
    spec fn runs(&self) -> u64;

    fn init(&mut self, world: &mut World<V>) -> (r: Result<(), String>)
        ensures
            final(self).runs() == bumped(old(self).runs()),
    ;

    fn update(&mut self, event: &E, world: &mut World<V>) -> (r: Result<(), String>)
        ensures
            final(self).runs() == bumped(old(self).runs()),
    ;
}

/// A hook that failed: the position of its system in registration order, and its message.
pub struct SystemError {
    pub index: usize,
    pub message: String,
}

/// One pass over `total` systems: which one runs next, and whether one has failed.
pub struct Dispatch {
    total: usize,
    next: usize,
    failed: Option<usize>,
}

impl Dispatch {
    pub closed spec fn total(&self) -> nat {
        self.total as nat
    }

    /// How many systems have been invoked so far.
    pub closed spec fn invoked(&self) -> nat {
        self.next as nat
    }

    /// The system whose hook failed, if one did.
    pub closed spec fn failed(&self) -> Option<nat> {
        match self.failed {
            Some(i) => Some(i as nat),
            None => None,
        }
    }

    /// A failure, if any, is the last system invoked; no more are invoked than exist.
    pub open spec fn wf(&self) -> bool {
        &&& self.invoked() <= self.total()
        &&& self.failed() matches Some(i) ==> i + 1 == self.invoked()
    }

    /// The system to invoke next: the following one in order, while none has failed.
    pub open spec fn pending(&self) -> Option<nat> {
        if self.failed() is None && self.invoked() < self.total() {
            Some(self.invoked())
        } else {
            None
        }
    }

    /// The state after the pending system's hook returned, successfully when `ok`.
    pub closed spec fn after(&self, ok: bool) -> Dispatch {
        Dispatch {
            total: self.total,
            next: (self.next + 1) as usize,
            failed: if ok {
                self.failed
            } else {
                Some(self.next)
            },
        }
    }

    pub fn start(total: usize) -> (r: Self)
        ensures
            r.wf(),
            r.total() == total,
            r.invoked() == 0,
            r.failed() is None,
    {
        Dispatch { total, next: 0, failed: None }
    }

    pub fn next_system(&self) -> (r: Option<usize>)
        ensures
            r matches Some(i) ==> self.pending() == Some(i as nat),
            r is None ==> self.pending() is None,
    {
        if self.failed.is_none() && self.next < self.total {
            Some(self.next)
        } else {
            None
        }
    }

    /// Records the outcome of the pending system's hook.
    pub fn record(&mut self, ok: bool)
        requires
            old(self).wf(),
            old(self).pending() is Some,
        ensures
            final(self).wf(),
            *final(self) == old(self).after(ok),
            final(self).total() == old(self).total(),
            final(self).invoked() == old(self).invoked() + 1,
    {
        if !ok {
            self.failed = Some(self.next);
        }
        self.next = self.next + 1;
    }

    /// The system that failed, if one did.
    pub fn failure(&self) -> (r: Option<usize>)
        ensures
            r matches Some(i) ==> self.failed() == Some(i as nat),
            r is None ==> self.failed() is None,
    {
        self.failed
    }
}

/// Systems run in registration order: the first one first, then each one after the
/// one before it succeeded; once one fails, no other runs for that event.
pub proof fn lemma_dispatch_order(d: Dispatch, ok: bool)
    requires
        d.wf(),
        d.pending() is Some,
    ensures
        d.after(ok).wf(),
        d.invoked() == 0 ==> d.pending() == Some(0nat),
        ok ==> d.after(ok).pending() == if d.invoked() + 1 < d.total() {
            Some(d.pending()->0 + 1)
        } else {
            None
        },
        !ok ==> d.after(ok).pending() is None && d.after(ok).failed() == d.pending(),
{
}

/// The registered systems, in registration order.
pub struct Scheduler<S> {
    systems: Vec<S>,
}

impl<S> Scheduler<S> {
    pub closed spec fn systems(&self) -> Seq<S> {
        self.systems@
    }

    pub fn new() -> (r: Self)
        ensures
            r.systems() == Seq::<S>::empty(),
    {
        Scheduler { systems: Vec::new() }
    }

    /// Appends a system; its hooks are not called yet.
    pub fn register(&mut self, system: S)
        ensures
            final(self).systems() == old(self).systems().push(system),
    {
        self.systems.push(system);
    }

    pub fn len(&self) -> (r: usize)
        ensures
            r == self.systems().len(),
    {
        self.systems.len()
    }

    /// Calls every system's initialization hook in order, stopping at the first failure.
    pub fn init_all<E, V>(&mut self, world: &mut World<V>) -> (r: Result<(), SystemError>) where
        S: System<E, V>,

        ensures
            final(self).systems().len() == old(self).systems().len(),
            r matches Err(e) ==> e.index < old(self).systems().len(),
            r matches Err(e) ==> forall|j: int|
                e.index < j < old(self).systems().len() ==> final(self).systems()[j] == old(
                    self,
                ).systems()[j],
            r matches Err(e) ==> forall|j: int|
                0 <= j <= e.index ==> (#[trigger] final(self).systems()[j]).runs() == bumped(
                    old(self).systems()[j].runs(),
                ),
            r is Ok ==> forall|j: int|
                0 <= j < old(self).systems().len() ==> (#[trigger] final(self).systems()[j]).runs()
                    == bumped(old(self).systems()[j].runs()),
    {
        let mut d = Dispatch::start(self.systems.len());
        loop
            invariant
                d.wf(),
                d.total() == self.systems@.len(),
                self.systems@.len() == old(self).systems@.len(),
                d.failed() is None,
                forall|j: int|
                    0 <= j < d.invoked() ==> (#[trigger] self.systems@[j]).runs() == bumped(
                        old(self).systems@[j].runs(),
                    ),
                forall|j: int|
                    d.invoked() <= j < self.systems@.len() ==> self.systems@[j] == old(
                        self,
                    ).systems@[j],
            decreases d.total() - d.invoked(),
        {
            let i = match d.next_system() {
                Some(i) => i,
                None => return Ok(()),
            };
            match self.systems[i].init(world) {
                Ok(()) => d.record(true),
                Err(message) => {
                    d.record(false);
                    return Err(SystemError { index: i, message });
                },
            }
        }
    }

    /// Calls every system's update hook with `event` in order, stopping at the first failure.
    pub fn dispatch<E, V>(&mut self, event: &E, world: &mut World<V>) -> (r: Result<(), SystemError>) where
        S: System<E, V>,

        ensures
            final(self).systems().len() == old(self).systems().len(),
            r matches Err(e) ==> e.index < old(self).systems().len(),
            r matches Err(e) ==> forall|j: int|
                e.index < j < old(self).systems().len() ==> final(self).systems()[j] == old(
                    self,
                ).systems()[j],
            r matches Err(e) ==> forall|j: int|
                0 <= j <= e.index ==> (#[trigger] final(self).systems()[j]).runs() == bumped(
                    old(self).systems()[j].runs(),
                ),
            r is Ok ==> forall|j: int|
                0 <= j < old(self).systems().len() ==> (#[trigger] final(self).systems()[j]).runs()
                    == bumped(old(self).systems()[j].runs()),
    {
        let mut d = Dispatch::start(self.systems.len());
        loop
            invariant
                d.wf(),
                d.total() == self.systems@.len(),
                self.systems@.len() == old(self).systems@.len(),
                d.failed() is None,
                forall|j: int|
                    0 <= j < d.invoked() ==> (#[trigger] self.systems@[j]).runs() == bumped(
                        old(self).systems@[j].runs(),
                    ),
                forall|j: int|
                    d.invoked() <= j < self.systems@.len() ==> self.systems@[j] == old(
                        self,
                    ).systems@[j],
            decreases d.total() - d.invoked(),
        {
            let i = match d.next_system() {
                Some(i) => i,
                None => return Ok(()),
            };
            match self.systems[i].update(event, world) {
                Ok(()) => d.record(true),
                Err(message) => {
                    d.record(false);
                    return Err(SystemError { index: i, message });
                },
            }
        }
    }
}

} // verus!
