//! A worker: the work that the supervisor hands out, the counters by which
//! a worker is woken, and the check of one clause.

use crate::instance_view::InstanceView;
use crate::parsers::proof_text::models_of;
use crate::propagation::{refuted, visible_at};
use crate::semantics::VerifierType;
use crate::verifiers::admissibility_verifier::{admissibility_holds, admissibility_verify};
use crate::verifiers::rup_verifier::{assumptions_of, rup_verify, verification_index_of};
use crate::verifiers::stability_verifier::{stability_holds, stability_verify};
use vstd::prelude::*;

verus! {

/// What the supervisor tells a worker to do.
#[derive(Clone, Copy, Debug, PartialEq, Eq)]
pub enum Work {
    /// Check the clause with the given index, or the empty clause.
    Work(Option<usize>),
    /// Wait until woken.
    Stall,
    /// Stop.
    Finished,
}

/// A worker, as far as others see it: the two counters by which it is
/// woken. A wake-up sets the first counter apart from the second; the
/// worker takes note of it by setting the second to the first. So a wake-up
/// that comes before the worker waits is not lost.
pub struct Worker {
    id: usize,
    park: (usize, usize),
}

impl Worker {
    pub closed spec fn spec_id(&self) -> usize {
        self.id
    }

    /// A wake-up is due that the worker has not taken note of.
    pub closed spec fn woken(&self) -> bool {
        self.park.0 != self.park.1
    }

    /// A worker that no wake-up is due to.
    pub fn new(id: usize) -> (worker: Worker)
        ensures
            worker.spec_id() == id,
            !worker.woken(),
    {
        Worker { id, park: (0, 0) }
    }

    pub fn get_id(&self) -> (id: usize)
        ensures
            id == self.spec_id(),
    {
        self.id
    }

    /// Wakes the worker: a wake-up is due from now on, whether or not the
    /// worker waits already.
    pub fn wake_up(&mut self)
        ensures
            final(self).woken(),
            final(self).spec_id() == old(self).spec_id(),
    {
        let (_, seen) = self.park;
        self.park = (seen.wrapping_add(1), seen);
    }

    /// Takes note of a wake-up. Returns whether one was due; where none was,
    /// the worker is to wait and to ask again.
    pub fn stall(&mut self) -> (resumed: bool)
        ensures
            resumed == old(self).woken(),
            !final(self).woken(),
            final(self).spec_id() == old(self).spec_id(),
    {
        let (current, seen) = self.park;
        if seen == current {
            false
        } else {
            self.park = (current, current);
            true
        }
    }

    /// What the check of a clause of the proof by its rule comes to; for the
    /// empty clause the rule is reverse unit propagation.
    pub open spec fn holds(instance: InstanceView, id: Option<usize>) -> bool {
        let base = instance.base();
        match id {
            None => refuted(
                models_of(base.clauses@),
                verification_index_of(base, None),
                assumptions_of(base, None),
            ),
            Some(index) => match base.clauses@[index as int].spec_verifier() {
                Some(VerifierType::Admissibility(attack)) => admissibility_holds(
                    base,
                    index as int,
                    attack,
                ),
                Some(VerifierType::Stability) => stability_holds(base, index as int),
                _ => refuted(
                    models_of(base.clauses@),
                    verification_index_of(base, id),
                    assumptions_of(base, id),
                ),
            },
        }
    }

    /// Checks a clause of the proof by its rule, or the empty clause by
    /// reverse unit propagation, and returns whether the check succeeded.
    /// The clauses that the check was the first to mark as used while they
    /// propagated are added to the dependencies.
    pub fn do_work(id: Option<usize>, instance: &mut InstanceView, dependencies: &mut Vec<usize>) -> (result:
        bool)
        requires
            old(instance).wf(),
            id matches Some(index) ==> old(instance).base().proof_start <= index < old(instance).base().clauses@.len(),
        ensures
            final(instance).wf(),
            final(instance).base() == old(instance).base(),
            result == Self::holds(*old(instance), id),
            final(dependencies)@.len() >= old(dependencies)@.len(),
            final(dependencies)@.subrange(0, old(dependencies)@.len() as int) == old(dependencies)@,
            forall|k: int|
                old(dependencies)@.len() <= k < final(dependencies)@.len() ==> (
                #[trigger] final(dependencies)@[k]) < old(instance).base().clauses@.len()
                    && visible_at(
                    old(instance).base().clauses@[final(dependencies)@[k] as int].model(),
                    final(dependencies)@[k] as int,
                    verification_index_of(old(instance).base(), id),
                ),
    {
        let verifier = match id {
            Some(index) => *instance.get_verifier(index),
            None => VerifierType::RUP,
        };
        match (verifier, id) {
            (VerifierType::Admissibility(attack), Some(index)) => {
                proof {
                    assert(dependencies@.subrange(0, dependencies@.len() as int) =~= dependencies@);
                }
                admissibility_verify(index, instance, attack)
            },
            (VerifierType::Stability, Some(index)) => {
                proof {
                    assert(dependencies@.subrange(0, dependencies@.len() as int) =~= dependencies@);
                }
                stability_verify(index, instance)
            },
            _ => rup_verify(id, instance, dependencies),
        }
    }
}

} // verus!
