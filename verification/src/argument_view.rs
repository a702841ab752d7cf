//! A worker's view of an argument: its value and the clauses that watch it.

use std::collections::HashSet;
use std::collections::VecDeque;
use vstd::prelude::*;
use vstd::std_specs::iter::IteratorSpec;

verus! {

/// A worker's view of an argument.
pub struct ArgumentView {
    /// The iteration in which the value was set.
    iteration: usize,
    /// The value, which counts in that iteration only.
    value: bool,
    /// The clauses that watch the argument with positive sign.
    positive_watched: HashSet<usize>,
    /// The clauses that watch the argument with negative sign.
    negative_watched: HashSet<usize>,
}

impl ArgumentView {
    pub closed spec fn spec_iteration(&self) -> usize {
        self.iteration
    }

    pub closed spec fn spec_value(&self) -> bool {
        self.value
    }

    /// The clauses that watch the argument with the given sign.
    pub closed spec fn watched(&self, sign: bool) -> Set<usize> {
        if sign {
            self.positive_watched@
        } else {
            self.negative_watched@
        }
    }

    /// The value that the argument has in the given iteration.
    pub open spec fn value_in(&self, iteration: usize) -> Option<bool> {
        if self.spec_iteration() == iteration {
            Some(self.spec_value())
        } else {
            None
        }
    }

    /// An argument that no clause watches, without a value in any iteration
    /// but the one before the first.
    pub fn new() -> (argument: ArgumentView)
        ensures
            argument.spec_iteration() == 0,
            argument.spec_value(),
            argument.watched(true) == Set::<usize>::empty(),
            argument.watched(false) == Set::<usize>::empty(),
    {
        ArgumentView {
            iteration: 0,
            value: true,
            positive_watched: HashSet::new(),
            negative_watched: HashSet::new(),
        }
    }

    /// Notes that the clause watches the argument with the given sign.
    pub fn add_watched_in(&mut self, id: usize, sign: bool)
        ensures
            final(self).watched(sign) == old(self).watched(sign).insert(id),
            final(self).watched(!sign) == old(self).watched(!sign),
            final(self).spec_iteration() == old(self).spec_iteration(),
            final(self).spec_value() == old(self).spec_value(),
    {
        broadcast use vstd::std_specs::hash::group_hash_axioms;

        if sign {
            self.positive_watched.insert(id);
        } else {
            self.negative_watched.insert(id);
        }
    }

    /// Notes that the clause no longer watches the argument with the given
    /// sign.
    pub fn remove_watched_in(&mut self, id: usize, sign: bool)
        ensures
            final(self).watched(sign) == old(self).watched(sign).remove(id),
            final(self).watched(!sign) == old(self).watched(!sign),
            final(self).spec_iteration() == old(self).spec_iteration(),
            final(self).spec_value() == old(self).spec_value(),
    {
        broadcast use vstd::std_specs::hash::group_hash_axioms;

        if sign {
            self.positive_watched.remove(&id);
        } else {
            self.negative_watched.remove(&id);
        }
    }

    /// Gives the argument a value for the given iteration, and queues the
    /// clauses that watch it with the other sign: each of them once, in no
    /// particular order.
    pub fn set_value(&mut self, value: bool, iteration: usize, clauses_to_check: &mut VecDeque<usize>)
        ensures
            final(self).spec_iteration() == iteration,
            final(self).spec_value() == value,
            final(self).watched(true) == old(self).watched(true),
            final(self).watched(false) == old(self).watched(false),
            final(clauses_to_check)@.len() >= old(clauses_to_check)@.len(),
            final(clauses_to_check)@.subrange(0, old(clauses_to_check)@.len() as int) == old(
                clauses_to_check,
            )@,
            final(clauses_to_check)@.subrange(
                old(clauses_to_check)@.len() as int,
                final(clauses_to_check)@.len() as int,
            ).to_set() == old(self).watched(!value),
            final(clauses_to_check)@.subrange(
                old(clauses_to_check)@.len() as int,
                final(clauses_to_check)@.len() as int,
            ).no_duplicates(),
    {
        broadcast use vstd::std_specs::hash::group_hash_axioms;

        self.iteration = iteration;
        self.value = value;
        let watching = if value {
            &self.negative_watched
        } else {
            &self.positive_watched
        };
        let ghost before = clauses_to_check@;
        let ghost all = vstd::std_specs::hash::spec_hash_keys_iter(watching).remaining();
        for entry in entries: watching.iter()
            invariant
                entries.seq() == all,
                clauses_to_check@ == before + entries.seq().unref().take(entries.index() as int),
        {
            clauses_to_check.push_back(*entry);
        }
        proof {
            let added = clauses_to_check@.subrange(
                before.len() as int,
                clauses_to_check@.len() as int,
            );
            assert(all.unref().take(all.len() as int) =~= all.unref());
            assert(added =~= all.unref());
            assert(clauses_to_check@.subrange(0, before.len() as int) =~= before);
            assert(all.no_duplicates());
            assert forall|i: int, j: int|
                0 <= i < added.len() && 0 <= j < added.len() && i != j implies added[i]
                != added[j] by {
                assert(added[i] == *all[i] && added[j] == *all[j]);
                assert(all[i] != all[j]);
            }
        }
    }

    /// Takes the value back to the iteration before the first.
    pub fn forget(&mut self)
        ensures
            final(self).spec_iteration() == 0,
            final(self).spec_value() == old(self).spec_value(),
            final(self).watched(true) == old(self).watched(true),
            final(self).watched(false) == old(self).watched(false),
    {
        self.iteration = 0;
    }

    /// Returns the value that the argument has in the given iteration.
    pub fn get_value(&self, iteration: usize) -> (value: Option<bool>)
        ensures
            value == self.value_in(iteration),
    {
        if self.iteration == iteration {
            Some(self.value)
        } else {
            None
        }
    }
}

} // verus!
