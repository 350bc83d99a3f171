//! A running instance — a module artifact paired with its context — and the
//! registry that holds the running instances keyed by id.

use vstd::prelude::*;

use crate::context::Context;
use crate::dna::Dna;
use crate::error::InstanceError;
use crate::strutil::str_eq;

verus! {

/// A running pairing of a module artifact with a context.
#[derive(Debug, PartialEq, Eq)]
pub struct Instance {
    pub id: String,
    pub dna: Dna,
    pub context: Context,
    pub running: bool,
}

/// `b` is `a` with its running flag set as given, everything else unchanged.
pub open spec fn same_but_running(a: Instance, b: Instance, running: bool) -> bool {
    b == (Instance { id: a.id, dna: a.dna, context: a.context, running })
}

impl Instance {
    /// Transition to running. Starting an instance that already runs is the
    /// fault it reports; the instance itself is left as it was.
    pub fn start(&mut self) -> (r: Result<(), InstanceError>)
        ensures
            old(self).running ==> (r matches Err(e) && *final(self) == *old(self) && (e matches
                InstanceError::InstanceAlreadyActive { instance_id } && instance_id@ == old(
                self,
            ).id@)),
            !old(self).running ==> r is Ok && same_but_running(*old(self), *final(self), true),
    {
        if self.running {
            Err(InstanceError::InstanceAlreadyActive { instance_id: self.id.clone() })
        } else {
            self.running = true;
            Ok(())
        }
    }

    /// Transition to stopped. Stopping is cooperative and total: an instance
    /// that does not run stays as it is.
    pub fn stop(&mut self)
        ensures
            same_but_running(*old(self), *final(self), false),
    {
        self.running = false;
    }
}

/// The running instances, keyed by id. Well-formed registries have unique
/// ids; the lifecycle manager keeps them that way.
#[derive(Debug, PartialEq, Eq)]
pub struct Registry {
    pub items: Vec<Instance>,
}

/// The ids held by the registry, in insertion order.
pub open spec fn registry_ids(r: Registry) -> Seq<Seq<char>> {
    Seq::new(r.items@.len(), |i: int| r.items@[i].id@)
}

impl Registry {
    /// An empty registry.
    pub fn new() -> (r: Registry)
        ensures
            r.items@ =~= Seq::<Instance>::empty(),
    {
        Registry { items: Vec::new() }
    }

    /// How many instances are registered.
    pub fn len(&self) -> (n: usize)
        ensures
            n == self.items@.len(),
    {
        self.items.len()
    }

    /// Whether an instance is registered under `id`.
    pub fn contains_id(&self, id: &str) -> (r: bool)
        ensures
            r == registry_ids(*self).contains(id@),
    {
        let mut i: usize = 0;
        while i < self.items.len()
            invariant
                i <= self.items@.len(),
                forall|j: int| 0 <= j < i ==> registry_ids(*self)[j] != id@,
            decreases self.items@.len() - i,
        {
            if str_eq(self.items[i].id.as_str(), id) {
                proof {
                    assert(registry_ids(*self)[i as int] == id@);
                }
                return true;
            }
            i += 1;
        }
        false
    }

    /// The instance registered under `id`, if any.
    pub fn get(&self, id: &str) -> (r: Option<&Instance>)
        ensures
            r is Some <==> registry_ids(*self).contains(id@),
            r matches Some(inst) ==> inst.id@ == id@ && exists|i: int|
                0 <= i < self.items@.len() && self.items@[i] == *inst,
    {
        let mut i: usize = 0;
        while i < self.items.len()
            invariant
                i <= self.items@.len(),
                forall|j: int| 0 <= j < i ==> registry_ids(*self)[j] != id@,
            decreases self.items@.len() - i,
        {
            if str_eq(self.items[i].id.as_str(), id) {
                proof {
                    assert(registry_ids(*self)[i as int] == id@);
                }
                return Some(&self.items[i]);
            }
            i += 1;
        }
        None
    }

    /// Register an instance at the end.
    pub fn insert(&mut self, inst: Instance)
        ensures
            final(self).items@ == old(self).items@.push(inst),
    {
        self.items.push(inst);
    }

    /// Start every instance, in registry order. The fold aborts at the first
    /// fault — an instance that was already running — and already-started
    /// instances remain started.
    pub fn start_all(&mut self) -> (r: Result<(), InstanceError>)
        ensures
            final(self).items@.len() == old(self).items@.len(),
            r is Ok <==> forall|k: int|
                0 <= k < old(self).items@.len() ==> !(#[trigger] old(self).items@[k]).running,
            r is Ok ==> forall|k: int|
                0 <= k < final(self).items@.len() ==> same_but_running(
                    old(self).items@[k],
                    #[trigger] final(self).items@[k],
                    true,
                ),
            r matches Err(e) ==> exists|p: int|
                {
                    &&& 0 <= p < old(self).items@.len()
                    &&& (#[trigger] old(self).items@[p]).running
                    &&& e matches InstanceError::InstanceAlreadyActive { instance_id }
                        && instance_id@ == old(self).items@[p].id@
                    &&& forall|j: int|
                        0 <= j < p ==> !(#[trigger] old(self).items@[j]).running
                            && same_but_running(old(self).items@[j], final(self).items@[j], true)
                    &&& forall|j: int|
                        p <= j < old(self).items@.len() ==> #[trigger] final(self).items@[j]
                            == old(self).items@[j]
                },
    {
        let ghost orig = self.items@;
        let mut rev: Vec<Instance> = Vec::new();
        while self.items.len() > 0
            invariant
                self.items@.len() + rev@.len() == orig.len(),
                self.items@ == orig.subrange(0, self.items@.len() as int),
                forall|j: int|
                    0 <= j < rev@.len() ==> #[trigger] rev@[j] == orig[orig.len() - 1 - j],
            decreases self.items@.len(),
        {
            let inst = match self.items.pop() {
                Some(x) => x,
                None => unreached(),
            };
            rev.push(inst);
        }
        let mut failed: Option<InstanceError> = None;
        while rev.len() > 0
            invariant
                self.items@.len() + rev@.len() == orig.len(),
                forall|j: int|
                    0 <= j < rev@.len() ==> #[trigger] rev@[j] == orig[orig.len() - 1 - j],
                failed is None ==> forall|k: int|
                    0 <= k < self.items@.len() ==> !(#[trigger] orig[k]).running
                        && same_but_running(orig[k], self.items@[k], true),
                failed matches Some(e) ==> exists|p: int|
                    {
                        &&& 0 <= p < self.items@.len()
                        &&& (#[trigger] orig[p]).running
                        &&& e matches InstanceError::InstanceAlreadyActive { instance_id }
                            && instance_id@ == orig[p].id@
                        &&& forall|j: int|
                            0 <= j < p ==> !(#[trigger] orig[j]).running && same_but_running(
                                orig[j],
                                self.items@[j],
                                true,
                            )
                        &&& forall|j: int|
                            p <= j < self.items@.len() ==> #[trigger] self.items@[j] == orig[j]
                    },
            decreases rev@.len(),
        {
            let mut inst = match rev.pop() {
                Some(x) => x,
                None => unreached(),
            };
            proof {
                assert(inst == orig[self.items@.len() as int]);
            }
            if failed.is_none() {
                match inst.start() {
                    Err(e) => {
                        failed = Some(e);
                    },
                    Ok(_) => {},
                }
            }
            self.items.push(inst);
        }
        match failed {
            Some(e) => Err(e),
            None => Ok(()),
        }
    }

    /// Stop every instance, in registry order. Stopping is total.
    pub fn stop_all(&mut self)
        ensures
            final(self).items@.len() == old(self).items@.len(),
            forall|k: int|
                0 <= k < final(self).items@.len() ==> same_but_running(
                    old(self).items@[k],
                    #[trigger] final(self).items@[k],
                    false,
                ),
    {
        let ghost orig = self.items@;
        let mut rev: Vec<Instance> = Vec::new();
        while self.items.len() > 0
            invariant
                self.items@.len() + rev@.len() == orig.len(),
                self.items@ == orig.subrange(0, self.items@.len() as int),
                forall|j: int|
                    0 <= j < rev@.len() ==> #[trigger] rev@[j] == orig[orig.len() - 1 - j],
            decreases self.items@.len(),
        {
            let inst = match self.items.pop() {
                Some(x) => x,
                None => unreached(),
            };
            rev.push(inst);
        }
        while rev.len() > 0
            invariant
                self.items@.len() + rev@.len() == orig.len(),
                forall|j: int|
                    0 <= j < rev@.len() ==> #[trigger] rev@[j] == orig[orig.len() - 1 - j],
                forall|k: int|
                    0 <= k < self.items@.len() ==> same_but_running(
                        orig[k],
                        #[trigger] self.items@[k],
                        false,
                    ),
            decreases rev@.len(),
        {
            let mut inst = match rev.pop() {
                Some(x) => x,
                None => unreached(),
            };
            proof {
                assert(inst == orig[self.items@.len() as int]);
            }
            inst.stop();
            self.items.push(inst);
        }
    }
}

} // verus!
