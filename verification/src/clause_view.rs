//! A worker's view of a clause: the clause and the two members that the
//! worker watches.

use crate::clause_base::{arguments_below, ClauseBase};
use crate::instance_view::{first_watches, with_watcher, InstanceView};
use crate::propagation::{lemma_replacement, position_after, propagation, replacement};
use crate::propagation::replacement_from;
use crate::propagation::{watches_fit, Propagation, WatchUpdate, WatchUpdateResult};
use crate::semantics::VerifierType;
use vstd::prelude::*;

verus! {

/// A worker's view of a clause.
pub struct ClauseView<'a> {
    /// The clause.
    base: &'a ClauseBase,
    /// The position of the first watched member.
    first_watch: usize,
    /// The position of the second watched member.
    second_watch: usize,
}

impl<'a> ClauseView<'a> {
    /// The clause that the view is of.
    pub closed spec fn spec_base(&self) -> ClauseBase {
        *self.base
    }

    /// The positions of the two watched members.
    pub closed spec fn spec_watches(&self) -> (usize, usize) {
        (self.first_watch, self.second_watch)
    }

    /// The view of a clause that watches its first two members, or its one
    /// member twice. The arguments of the watched members are told so.
    pub fn new(base: &'a ClauseBase, instance: &mut InstanceView) -> (view: ClauseView<'a>)
        requires
            base.spec_members().len() >= 1,
            arguments_below(base.spec_members(), old(instance).model().watchers.len()),
        ensures
            view.spec_base() == *base,
            view.spec_watches() == first_watches(base.spec_members()),
            final(instance).same_but_watchers(*old(instance)),
            final(instance).model().watchers == if base.spec_members().len() > 1 {
                with_watcher(
                    with_watcher(
                        old(instance).model().watchers,
                        base.spec_members()[0],
                        base.spec_index(),
                    ),
                    base.spec_members()[1],
                    base.spec_index(),
                )
            } else {
                with_watcher(
                    old(instance).model().watchers,
                    base.spec_members()[0],
                    base.spec_index(),
                )
            },
    {
        let mut view = ClauseView { base, first_watch: 0, second_watch: 0 };
        let clause_index = base.get_index();
        let (index, sign) = base.get_member(0);
        instance.set_argument_watch(true, index, clause_index, sign);
        if base.get_number_of_members() > 1 {
            let (index, sign) = base.get_member(1);
            view.second_watch = 1;
            instance.set_argument_watch(true, index, clause_index, sign);
        }
        view
    }

    pub fn get_verifier(&self) -> (verifier: &VerifierType)
        requires
            self.spec_base().spec_verifier() is Some,
        ensures
            Some(*verifier) == self.spec_base().spec_verifier(),
    {
        self.base.get_verifier()
    }

    /// Checks the clause under the values that the arguments have in the
    /// instance view. Returns the literal that the clause propagates and the
    /// changes of its two watches, which the caller is to apply.
    pub fn check_propagation(&self, instance: &InstanceView) -> (outcome: Propagation)
        requires
            self.spec_base().spec_members().len() >= 1,
            arguments_below(self.spec_base().spec_members(), instance.model().values.len()),
            watches_fit(self.spec_base().spec_members(), self.spec_watches()),
        ensures
            outcome == propagation(
                self.spec_base().spec_members(),
                instance.assignment(),
                self.spec_watches(),
            ),
    {
        if self.base.get_number_of_members() == 1 {
            return (Some(self.base.get_member(0)), None, None);
        }
        let (first_watch_index, first_watch_sign) = self.base.get_member(self.first_watch);
        let first_watch_value = instance.get_argument_value(first_watch_index);
        let first_watch_value_set = if let Some(value) = first_watch_value {
            if value == first_watch_sign {
                return (None, None, None);
            }
            true
        } else {
            false
        };
        let (second_watch_index, second_watch_sign) = self.base.get_member(self.second_watch);
        let second_watch_value = instance.get_argument_value(second_watch_index);
        let second_watch_value_set = if let Some(value) = second_watch_value {
            if value == second_watch_sign {
                return (None, None, None);
            }
            true
        } else {
            false
        };
        let mut first_watch_update: Option<WatchUpdate> = None;
        let mut second_watch_update: Option<WatchUpdate> = None;
        if first_watch_value_set {
            match self.update_watch(
                instance,
                self.first_watch,
                first_watch_index,
                first_watch_sign,
                self.second_watch,
            ) {
                WatchUpdateResult::Success(update) => {
                    first_watch_update = Some(update);
                },
                WatchUpdateResult::AlreadySatisfied => {
                    return (None, first_watch_update, second_watch_update);
                },
                WatchUpdateResult::Failed => {
                    return (
                        Some((second_watch_index, second_watch_sign)),
                        first_watch_update,
                        second_watch_update,
                    );
                },
            }
        }
        let (first_watch, first_watch_index, first_watch_sign) = if let Some(
            (first_watch, _, (first_watch_index, first_watch_sign)),
        ) = first_watch_update {
            (first_watch, first_watch_index, first_watch_sign)
        } else {
            (self.first_watch, first_watch_index, first_watch_sign)
        };
        proof {
            if first_watch_update is Some {
                lemma_replacement(
                    self.spec_base().spec_members(),
                    instance.assignment(),
                    self.first_watch as int,
                    self.second_watch as int,
                    1,
                );
            }
        }
        if second_watch_value_set {
            match self.update_watch(
                instance,
                self.second_watch,
                second_watch_index,
                second_watch_sign,
                first_watch,
            ) {
                WatchUpdateResult::Success(update) => {
                    second_watch_update = Some(update);
                },
                WatchUpdateResult::AlreadySatisfied => {
                    return (None, first_watch_update, second_watch_update);
                },
                WatchUpdateResult::Failed => {
                    return (
                        Some((first_watch_index, first_watch_sign)),
                        first_watch_update,
                        second_watch_update,
                    );
                },
            }
        }
        (None, first_watch_update, second_watch_update)
    }

    /// Looks for another member to watch in place of the one at
    /// `initial_index`: the next one round the clause, the other watch left
    /// out, that is not falsified.
    pub fn update_watch(
        &self,
        instance: &InstanceView,
        initial_index: usize,
        current_argument_index: usize,
        current_argument_sign: bool,
        other_index: usize,
    ) -> (result: WatchUpdateResult)
        requires
            arguments_below(self.spec_base().spec_members(), instance.model().values.len()),
            initial_index < self.spec_base().spec_members().len(),
            other_index < self.spec_base().spec_members().len(),
            self.spec_base().spec_members()[initial_index as int] == (
                current_argument_index,
                current_argument_sign,
            ),
        ensures
            result == replacement(
                self.spec_base().spec_members(),
                instance.assignment(),
                initial_index as int,
                other_index as int,
            ),
    {
        let count = self.base.get_number_of_members();
        let ghost members = self.spec_base().spec_members();
        let ghost assignment = instance.assignment();
        let mut running_index = if initial_index + 1 == count {
            0
        } else {
            initial_index + 1
        };
        let ghost mut steps: int = 1;
        while initial_index != running_index
            invariant
                count == members.len(),
                members == self.spec_base().spec_members(),
                assignment == instance.assignment(),
                arguments_below(members, instance.model().values.len()),
                initial_index < count,
                other_index < count,
                members[initial_index as int] == (current_argument_index, current_argument_sign),
                1 <= steps <= count,
                running_index == position_after(initial_index as int, steps, count as int),
                replacement(members, assignment, initial_index as int, other_index as int)
                    == replacement_from(
                    members,
                    assignment,
                    initial_index as int,
                    other_index as int,
                    steps,
                ),
            decreases count - steps,
        {
            if running_index != other_index {
                let (argument_index, argument_sign) = self.base.get_member(running_index);
                let argument_value = instance.get_argument_value(argument_index);
                if let Some(value) = argument_value {
                    if value == argument_sign {
                        return WatchUpdateResult::AlreadySatisfied;
                    }
                } else {
                    return WatchUpdateResult::Success(
                        (
                            running_index,
                            (current_argument_index, current_argument_sign),
                            (argument_index, argument_sign),
                        ),
                    );
                }
            }
            running_index = if running_index + 1 == count {
                0
            } else {
                running_index + 1
            };
            proof {
                steps = steps + 1;
            }
        }
        WatchUpdateResult::Failed
    }

    /// Moves a watch to the member at the given position.
    pub fn set_watch(&mut self, watch: usize, index: usize)
        requires
            watch < 2,
        ensures
            final(self).spec_base() == old(self).spec_base(),
            final(self).spec_watches() == if watch == 0 {
                (index, old(self).spec_watches().1)
            } else {
                (old(self).spec_watches().0, index)
            },
    {
        if watch == 0 {
            self.first_watch = index;
        } else {
            self.second_watch = index;
        }
    }

    pub fn deleted_at(&self) -> (deleted_at: Option<usize>)
        ensures
            deleted_at == self.spec_base().spec_deleted_at(),
    {
        self.base.deleted_at()
    }

    pub fn get_members(&self) -> (members: &Vec<(usize, bool)>)
        ensures
            members@ == self.spec_base().spec_members(),
    {
        self.base.get_members()
    }
}

} // verus!
