//! A worker's view of the instance: the values of the arguments, the watches
//! of the clauses and the clauses that wait for their check.

use crate::argument_view::ArgumentView;
use crate::clause_view::ClauseView;
use crate::instance_base::{consistent, InstanceBase};
use crate::propagation::{calm, clause_satisfied, lemma_propagation, not_deleted_for};
use crate::propagation::{propagation, satisfied_by};
use crate::propagation::{holds_all, watches_after, watches_fit, WatchUpdate};
use crate::semantics::VerifierType;
use std::collections::VecDeque;
use vstd::prelude::*;

verus! {

/// What a worker's view holds.
pub struct ViewModel {
    /// The value of each argument, if it has one.
    pub values: Seq<Option<bool>>,
    /// The clauses that watch each argument: those that watch it with
    /// positive sign, and those that watch it with negative sign.
    pub watchers: Seq<(Set<usize>, Set<usize>)>,
    /// The positions of the two watched members of each clause.
    pub watches: Seq<(usize, usize)>,
    /// The clauses that wait for their check, the next one first.
    pub pending: Seq<usize>,
}

/// The values as an assignment: it holds the arguments that have a value.
pub open spec fn assignment_of(values: Seq<Option<bool>>) -> Map<usize, bool> {
    Map::new(
        |a: usize| a < values.len() && values[a as int] is Some,
        |a: usize| values[a as int]->Some_0,
    )
}

/// The clauses that watch the literal.
pub open spec fn watchers_of(watchers: Seq<(Set<usize>, Set<usize>)>, literal: (usize, bool)) -> Set<
    usize,
> {
    if literal.1 {
        watchers[literal.0 as int].0
    } else {
        watchers[literal.0 as int].1
    }
}

/// The watchers after the clause has begun to watch the literal.
pub open spec fn with_watcher(
    watchers: Seq<(Set<usize>, Set<usize>)>,
    literal: (usize, bool),
    clause: usize,
) -> Seq<(Set<usize>, Set<usize>)> {
    let of_argument = watchers[literal.0 as int];
    watchers.update(
        literal.0 as int,
        if literal.1 {
            (of_argument.0.insert(clause), of_argument.1)
        } else {
            (of_argument.0, of_argument.1.insert(clause))
        },
    )
}

/// The watchers after the clause has ceased to watch the literal.
pub open spec fn without_watcher(
    watchers: Seq<(Set<usize>, Set<usize>)>,
    literal: (usize, bool),
    clause: usize,
) -> Seq<(Set<usize>, Set<usize>)> {
    let of_argument = watchers[literal.0 as int];
    watchers.update(
        literal.0 as int,
        if literal.1 {
            (of_argument.0.remove(clause), of_argument.1)
        } else {
            (of_argument.0, of_argument.1.remove(clause))
        },
    )
}

/// One of the two watches lies on the literal.
pub open spec fn watches_literal(
    members: Seq<(usize, bool)>,
    watches: (usize, usize),
    literal: (usize, bool),
) -> bool {
    members[watches.0 as int] == literal || members[watches.1 as int] == literal
}

/// The clauses that watch an argument and the watches of the clauses agree:
/// a clause is among the watchers of the literals that its two watches lie
/// on, and of no other literal.
pub open spec fn in_sync(
    watchers: Seq<(Set<usize>, Set<usize>)>,
    watches: Seq<(usize, usize)>,
    base: InstanceBase,
) -> bool {
    &&& forall|c: int|
        0 <= c < watches.len() ==> watchers_of(
            watchers,
            base.clauses@[c].spec_members()[(#[trigger] watches[c]).0 as int],
        ).contains(c as usize) && watchers_of(
            watchers,
            base.clauses@[c].spec_members()[watches[c].1 as int],
        ).contains(c as usize)
    &&& forall|a: usize, sign: bool, c: usize|
        a < watchers.len() && #[trigger] watchers_of(watchers, (a, sign)).contains(c) ==> c
            < watches.len() && watches_literal(
            base.clauses@[c as int].spec_members(),
            watches[c as int],
            (a, sign),
        )
}

/// The view fits the instance: it has a value and watchers for each
/// argument and two watches for each clause, the watches lie on members of
/// their clause, watchers and watches agree, and only clauses wait.
pub open spec fn fits(model: ViewModel, base: InstanceBase) -> bool {
    &&& model.values.len() == base.arguments@.len()
    &&& model.watchers.len() == base.arguments@.len()
    &&& model.watches.len() == base.clauses@.len()
    &&& forall|c: int|
        0 <= c < model.watches.len() ==> watches_fit(
            base.clauses@[c].spec_members(),
            #[trigger] model.watches[c],
        )
    &&& in_sync(model.watchers, model.watches, base)
    &&& forall|i: int| 0 <= i < model.pending.len() ==> #[trigger] model.pending[i] < model.watches.len()
}

/// A worker's view of the instance.
pub struct InstanceView<'a> {
    /// The instance.
    base: &'a InstanceBase,
    /// The iteration whose values count.
    iteration: usize,
    /// The views of the arguments.
    arguments: Vec<ArgumentView>,
    /// The views of the clauses.
    clauses: Vec<ClauseView<'a>>,
    /// The clauses that wait for their check.
    clauses_to_check: VecDeque<usize>,
}

/// The watches of a clause that no check has moved: they lie on its first
/// two members, or both on its one member.
pub open spec fn first_watches(members: Seq<(usize, bool)>) -> (usize, usize) {
    (0usize, if members.len() > 1 {
        1usize
    } else {
        0usize
    })
}

/// The clauses that watch, with the other sign, the argument that the
/// `k`-th requirement gives a value.
pub open spec fn falsified_watchers(
    watchers: Seq<(Set<usize>, Set<usize>)>,
    required: Seq<(usize, bool)>,
    k: int,
) -> Set<usize> {
    watchers_of(watchers, (required[k].0, !required[k].1))
}

/// The clause watches, with the other sign, an argument that one of the
/// first `count` requirements gives a value.
pub open spec fn watches_requirement(
    watchers: Seq<(Set<usize>, Set<usize>)>,
    required: Seq<(usize, bool)>,
    count: int,
    clause: usize,
) -> bool {
    exists|k: int|
        0 <= k < count && #[trigger] falsified_watchers(watchers, required, k).contains(clause)
}

/// An argument that has a value in a view as a reset leaves it has that
/// value in another such view of the instance.
proof fn lemma_same_value(first: InstanceView, second: InstanceView, argument: usize)
    requires
        first.wf(),
        second.wf(),
        first.base() == second.base(),
        first.fresh(),
        second.fresh(),
        argument < first.model().values.len(),
    ensures
        first.model().values[argument as int] is Some ==> second.model().values[argument as int]
            == first.model().values[argument as int],
{
    if first.model().values[argument as int] is Some {
        let required = first.base().required_arguments@;
        assert(first.assignment().contains_key(argument));
        let k = choose|k: int|
            0 <= k < required.len() && #[trigger] required[k] == (
                argument,
                first.assignment()[argument],
            );
        assert(satisfied_by(second.assignment(), required[k]));
    }
}

/// A clause that waits in a view as a reset leaves it waits in another such
/// view of the instance with the same watchers.
proof fn lemma_same_pending(first: InstanceView, second: InstanceView, clause: usize)
    requires
        first.base() == second.base(),
        first.model().watchers == second.model().watchers,
        first.fresh(),
        second.fresh(),
    ensures
        first.model().pending.to_set().contains(clause) ==> second.model().pending.to_set().contains(
            clause,
        ),
{
    let units = first.base().unit_clauses@;
    let required = first.base().required_arguments@;
    let pending = first.model().pending;
    let other = second.model().pending;
    if pending.to_set().contains(clause) {
        assert(pending.contains(clause));
        let i = choose|i: int| 0 <= i < pending.len() && pending[i] == clause;
        if i < units.len() {
            assert(pending.subrange(0, units.len() as int)[i] == clause);
            assert(other.subrange(0, units.len() as int)[i] == clause);
            assert(other[i] == clause);
        } else {
            assert(watches_requirement(
                first.model().watchers,
                required,
                required.len() as int,
                pending[i],
            ));
            assert(other.contains(clause));
        }
    }
}

impl<'a> InstanceView<'a> {
    /// The instance that the view is of.
    pub closed spec fn base(&self) -> InstanceBase {
        *self.base
    }

    /// What the view holds.
    pub closed spec fn model(&self) -> ViewModel {
        ViewModel {
            values: Seq::new(
                self.arguments@.len(),
                |a: int| self.arguments@[a].value_in(self.iteration),
            ),
            watchers: Seq::new(
                self.arguments@.len(),
                |a: int| (self.arguments@[a].watched(true), self.arguments@[a].watched(false)),
            ),
            watches: Seq::new(self.clauses@.len(), |c: int| self.clauses@[c].spec_watches()),
            pending: self.clauses_to_check@,
        }
    }

    /// What holds of the view's own data: no value is of a later iteration
    /// than the current one, and each clause view is of its clause.
    pub closed spec fn inv(&self) -> bool {
        &&& forall|a: int|
            0 <= a < self.arguments@.len() ==> (#[trigger] self.arguments@[a]).spec_iteration()
                <= self.iteration
        &&& self.clauses@.len() <= self.base.clauses@.len()
        &&& forall|c: int|
            0 <= c < self.clauses@.len() ==> (#[trigger] self.clauses@[c]).spec_base()
                == self.base.clauses@[c]
    }

    /// The values of the arguments.
    pub open spec fn assignment(&self) -> Map<usize, bool> {
        assignment_of(self.model().values)
    }

    /// The view is well formed: it fits its instance, which is well formed
    /// and requires no argument with both signs.
    pub open spec fn wf(&self) -> bool {
        &&& self.inv()
        &&& self.base().wf()
        &&& consistent(self.base().required_arguments@)
        &&& fits(self.model(), self.base())
    }

    /// The view is as the other is, but for the watchers of the arguments.
    pub open spec fn same_but_watchers(&self, other: InstanceView) -> bool {
        &&& self.base() == other.base()
        &&& other.inv() ==> self.inv()
        &&& self.model().values == other.model().values
        &&& self.model().watches == other.model().watches
        &&& self.model().pending == other.model().pending
        &&& self.model().watchers.len() == other.model().watchers.len()
    }

    /// Every clause is calm or waits for its check.
    pub open spec fn settled(&self) -> bool {
        forall|c: int|
            0 <= c < self.model().watches.len() ==> calm(
                self.base().clauses@[c].spec_members(),
                self.assignment(),
                #[trigger] self.model().watches[c],
            ) || self.model().pending.contains(c as usize)
    }

    /// The view of an instance in which no argument has a value, no clause
    /// waits, and each clause watches its first two members.
    pub fn new(base: &'a InstanceBase) -> (view: InstanceView<'a>)
        requires
            base.wf(),
            consistent(base.required_arguments@),
        ensures
            view.wf(),
            view.base() == *base,
            view.model().pending == Seq::<usize>::empty(),
            view.assignment() == Map::<usize, bool>::empty(),
            forall|c: int|
                0 <= c < base.clauses@.len() ==> #[trigger] view.model().watches[c]
                    == first_watches(base.clauses@[c].spec_members()),
    {
        let mut view = InstanceView {
            base,
            iteration: 1,
            arguments: Vec::new(),
            clauses: Vec::new(),
            clauses_to_check: VecDeque::new(),
        };
        let mut count: usize = 0;
        while count < base.arguments.len()
            invariant
                count <= base.arguments@.len(),
                view.arguments@.len() == count,
                view.base == base,
                view.iteration == 1,
                view.clauses@.len() == 0,
                view.clauses_to_check@.len() == 0,
                forall|a: int|
                    0 <= a < count ==> (#[trigger] view.arguments@[a]).spec_iteration() == 0
                        && view.arguments@[a].watched(true) == Set::<usize>::empty()
                        && view.arguments@[a].watched(false) == Set::<usize>::empty(),
            decreases base.arguments@.len() - count,
        {
            view.arguments.push(ArgumentView::new());
            count += 1;
        }
        proof {
            assert(view.model().values =~= Seq::new(
                base.arguments@.len(),
                |a: int| None::<bool>,
            ));
        }
        let mut index: usize = 0;
        while index < base.clauses.len()
            invariant
                index <= base.clauses@.len(),
                base.wf(),
                view.base() == *base,
                view.model().values == Seq::new(base.arguments@.len(), |a: int| None::<bool>),
                view.model().watchers.len() == base.arguments@.len(),
                view.model().watches.len() == index,
                view.model().pending.len() == 0,
                view.clauses@.len() == index,
                view.inv(),
                forall|c: int|
                    0 <= c < index ==> watches_fit(
                        base.clauses@[c].spec_members(),
                        #[trigger] view.model().watches[c],
                    ),
                forall|c: int|
                    0 <= c < index ==> #[trigger] view.model().watches[c] == first_watches(
                        base.clauses@[c].spec_members(),
                    ),
                in_sync(view.model().watchers, view.model().watches, *base),
            decreases base.clauses@.len() - index,
        {
            let clause = &base.clauses[index];
            let ghost before = view;
            proof {
                base.lemma_clause(index as int);
            }
            let clause_view = ClauseView::new(clause, &mut view);
            let ghost between = view;
            view.clauses.push(clause_view);
            proof {
                let members = clause.spec_members();
                let old_watchers = before.model().watchers;
                let old_watches = before.model().watches;
                let watchers = view.model().watchers;
                let watches = view.model().watches;
                assert(watchers == between.model().watchers);
                assert(watches =~= old_watches.push(clause_view.spec_watches()));
                assert(clause.spec_index() == index);
                assert forall|c: int| 0 <= c < watches.len() implies watchers_of(
                    watchers,
                    base.clauses@[c].spec_members()[(#[trigger] watches[c]).0 as int],
                ).contains(c as usize) && watchers_of(
                    watchers,
                    base.clauses@[c].spec_members()[watches[c].1 as int],
                ).contains(c as usize) by {
                    if c < index {
                        base.lemma_clause(c);
                        assert(watches[c] == old_watches[c]);
                        assert(watches_fit(base.clauses@[c].spec_members(), old_watches[c]));
                    }
                }
                assert forall|a: usize, sign: bool, c: usize|
                    a < watchers.len() && #[trigger] watchers_of(watchers, (a, sign)).contains(
                        c,
                    ) implies c < watches.len() && watches_literal(
                    base.clauses@[c as int].spec_members(),
                    watches[c as int],
                    (a, sign),
                ) by {
                    if c != index {
                        assert(watchers_of(old_watchers, (a, sign)).contains(c));
                        assert(watches[c as int] == old_watches[c as int]);
                    } else {
                        if watchers_of(old_watchers, (a, sign)).contains(c) {
                            assert(c < old_watches.len());
                        }
                    }
                }
            }
            index += 1;
        }
        proof {
            assert(view.assignment() =~= Map::<usize, bool>::empty());
            assert(view.model().pending =~= Seq::<usize>::empty());
        }
        view
    }

    /// The view is as a reset leaves it: the required arguments have their
    /// values and no other argument has one; the clauses of one member wait
    /// for their check, and behind them the clauses that watch a required
    /// argument with the other sign, and no others.
    pub open spec fn fresh(&self) -> bool {
        let required = self.base().required_arguments@;
        let units = self.base().unit_clauses@;
        let pending = self.model().pending;
        &&& holds_all(self.assignment(), required)
        &&& forall|a: usize| #[trigger]
            self.assignment().contains_key(a) ==> exists|k: int|
                0 <= k < required.len() && #[trigger] required[k] == (a, self.assignment()[a])
        &&& pending.len() >= units.len()
        &&& pending.subrange(0, units.len() as int) == units
        &&& forall|i: int|
            units.len() <= i < pending.len() ==> watches_requirement(
                self.model().watchers,
                required,
                required.len() as int,
                #[trigger] pending[i],
            )
        &&& forall|c: usize| #[trigger]
            watches_requirement(self.model().watchers, required, required.len() as int, c)
                ==> pending.contains(c)
    }

    /// Starts a new iteration: no argument has a value but the required
    /// ones, and the clauses of one member wait for their check, followed by
    /// the clauses that watch a required argument with the other sign.
    pub fn reset(&mut self)
        requires
            old(self).wf(),
        ensures
            final(self).wf(),
            final(self).base() == old(self).base(),
            final(self).model().watches == old(self).model().watches,
            final(self).model().watchers == old(self).model().watchers,
            final(self).fresh(),
            final(self).settled(),
    {
        self.start_iteration();
        self.clauses_to_check.clear();
        let base = self.base;
        let ghost required = base.required_arguments@;
        let ghost units = base.unit_clauses@;
        let ghost watchers = self.model().watchers;
        let mut position: usize = 0;
        while position < base.unit_clauses.len()
            invariant
                position <= base.unit_clauses@.len(),
                base == self.base,
                self.wf(),
                self.base() == old(self).base(),
                self.model().watches == old(self).model().watches,
                self.model().watchers == old(self).model().watchers,
                self.assignment() == Map::<usize, bool>::empty(),
                self.model().pending == base.unit_clauses@.subrange(0, position as int),
            decreases base.unit_clauses@.len() - position,
        {
            let index = base.unit_clauses[position];
            self.clauses_to_check.push_back(index);
            proof {
                assert(self.model().pending =~= base.unit_clauses@.subrange(0, position + 1));
            }
            position += 1;
        }
        proof {
            assert(base.unit_clauses@.subrange(0, position as int) =~= base.unit_clauses@);
            assert(self.model().pending.subrange(0, units.len() as int) =~= units);
            assert forall|c: int| 0 <= c < self.model().watches.len() implies calm(
                self.base().clauses@[c].spec_members(),
                self.assignment(),
                #[trigger] self.model().watches[c],
            ) || self.model().pending.contains(c as usize) by {
                base.lemma_clause(c);
                if base.clauses@[c].spec_members().len() == 1 {
                    assert(base.unit_clauses@.contains(c as usize));
                }
            }
        }
        let mut position: usize = 0;
        while position < base.required_arguments.len()
            invariant
                position <= base.required_arguments@.len(),
                base == self.base,
                required == base.required_arguments@,
                units == base.unit_clauses@,
                watchers == self.model().watchers,
                self.wf(),
                self.base() == old(self).base(),
                self.model().watches == old(self).model().watches,
                self.model().watchers == old(self).model().watchers,
                holds_all(self.assignment(), required.subrange(0, position as int)),
                forall|a: usize| #[trigger]
                    self.assignment().contains_key(a) ==> exists|k: int|
                        0 <= k < position && #[trigger] required[k] == (a, self.assignment()[a]),
                self.model().pending.len() >= units.len(),
                self.model().pending.subrange(0, units.len() as int) == units,
                forall|i: int|
                    units.len() <= i < self.model().pending.len() ==> watches_requirement(
                        watchers,
                        required,
                        position as int,
                        #[trigger] self.model().pending[i],
                    ),
                forall|c: usize| #[trigger]
                    watches_requirement(watchers, required, position as int, c)
                        ==> self.model().pending.contains(c),
                self.settled(),
            decreases base.required_arguments@.len() - position,
        {
            let (argument, value) = base.required_arguments[position];
            let ghost before = *self;
            self.set_argument_value(argument, value);
            proof {
                let pending = self.model().pending;
                let old_pending = before.model().pending;
                let added = pending.subrange(old_pending.len() as int, pending.len() as int);
                assert(added.to_set() == falsified_watchers(watchers, required, position as int));
                assert forall|i: int| 0 <= i < old_pending.len() implies #[trigger] pending[i]
                    == old_pending[i] by {
                    assert(pending.subrange(0, old_pending.len() as int)[i] == pending[i]);
                }
                assert forall|i: int| 0 <= i < position + 1 implies satisfied_by(
                    self.assignment(),
                    #[trigger] required.subrange(0, position + 1)[i],
                ) by {
                    if i < position {
                        let literal = required.subrange(0, position as int)[i];
                        assert(satisfied_by(before.assignment(), literal));
                        assert(required[i] == literal);
                    }
                }
                assert forall|a: usize| #[trigger] self.assignment().contains_key(a) implies exists|
                    k: int,
                |
                    0 <= k < position + 1 && #[trigger] required[k] == (
                        a,
                        self.assignment()[a],
                    ) by {
                    if a == argument {
                        assert(required[position as int] == (a, self.assignment()[a]));
                    } else {
                        assert(before.assignment().contains_key(a));
                        let k = choose|k: int|
                            0 <= k < position && #[trigger] required[k] == (
                                a,
                                before.assignment()[a],
                            );
                        assert(required[k] == (a, self.assignment()[a]));
                    }
                }
                if before.assignment().contains_key(argument) {
                    let k = choose|k: int|
                        0 <= k < position && #[trigger] required[k] == (
                            argument,
                            before.assignment()[argument],
                        );
                    assert(required[k].0 == required[position as int].0);
                    assert(before.assignment()[argument] == value);
                    assert(self.model().values =~= before.model().values);
                }
                assert(pending.subrange(0, units.len() as int) =~= units) by {
                    assert forall|i: int| 0 <= i < units.len() implies pending.subrange(
                        0,
                        units.len() as int,
                    )[i] == units[i] by {
                        assert(old_pending.subrange(0, units.len() as int)[i] == units[i]);
                    }
                }
                assert forall|i: int| units.len() <= i < pending.len() implies watches_requirement(
                    watchers,
                    required,
                    position + 1,
                    #[trigger] pending[i],
                ) by {
                    if i < old_pending.len() {
                        assert(old_pending[i] == pending[i]);
                        assert(watches_requirement(
                            watchers,
                            required,
                            position as int,
                            old_pending[i],
                        ));
                        let k = choose|k: int|
                            0 <= k < position && #[trigger] falsified_watchers(
                                watchers,
                                required,
                                k,
                            ).contains(old_pending[i]);
                        assert(falsified_watchers(watchers, required, k).contains(pending[i]));
                    } else {
                        assert(added[i - old_pending.len()] == pending[i]);
                        assert(added.to_set().contains(pending[i]));
                        assert(falsified_watchers(watchers, required, position as int).contains(
                            pending[i],
                        ));
                    }
                }
                assert forall|c: usize| #[trigger]
                    watches_requirement(
                        watchers,
                        required,
                        position + 1,
                        c,
                    ) implies pending.contains(c) by {
                    let k = choose|k: int|
                        0 <= k < position + 1 && #[trigger] falsified_watchers(
                            watchers,
                            required,
                            k,
                        ).contains(c);
                    if k < position {
                        assert(watches_requirement(watchers, required, position as int, c));
                        assert(old_pending.contains(c));
                        let i = choose|i: int| 0 <= i < old_pending.len() && old_pending[i] == c;
                        assert(pending[i] == c);
                    } else {
                        assert(added.to_set().contains(c));
                        assert(added.contains(c));
                        let i = choose|i: int| 0 <= i < added.len() && added[i] == c;
                        assert(pending[old_pending.len() + i] == c);
                    }
                }
                assert forall|c: int| 0 <= c < self.model().watches.len() implies calm(
                    self.base().clauses@[c].spec_members(),
                    self.assignment(),
                    #[trigger] self.model().watches[c],
                ) || self.model().pending.contains(c as usize) by {
                    assert(calm(
                        before.base().clauses@[c].spec_members(),
                        before.assignment(),
                        before.model().watches[c],
                    ) || before.model().pending.contains(c as usize));
                    self.lemma_settled_after_value(before, argument, value, c);
                }
            }
            position += 1;
        }
        proof {
            assert(required.subrange(0, position as int) =~= required);
        }
    }

    /// Two views of an instance with the same watches are alike after a
    /// reset of each, whatever came before: the arguments have the same
    /// values, and the same clauses wait for their check, the clauses of one
    /// member first. Only the order in which the watchers of the required
    /// arguments wait may differ. So a reset after a reset changes no more
    /// than that order.
    pub proof fn lemma_reset_twice(self, other: InstanceView)
        requires
            self.wf(),
            other.wf(),
            self.base() == other.base(),
            self.model().watchers == other.model().watchers,
            self.fresh(),
            other.fresh(),
        ensures
            self.model().values == other.model().values,
            self.assignment() == other.assignment(),
            self.model().pending.to_set() == other.model().pending.to_set(),
            self.model().pending.subrange(0, self.base().unit_clauses@.len() as int)
                == other.model().pending.subrange(0, self.base().unit_clauses@.len() as int),
    {
        assert(self.base().arguments@.len() == self.base().arguments.len());
        assert forall|a: int| 0 <= a < self.model().values.len() implies self.model().values[a]
            == other.model().values[a] by {
            lemma_same_value(self, other, a as usize);
            lemma_same_value(other, self, a as usize);
        }
        assert(self.model().values =~= other.model().values);
        assert forall|c: usize| self.model().pending.to_set().contains(c)
            == other.model().pending.to_set().contains(c) by {
            lemma_same_pending(self, other, c);
            lemma_same_pending(other, self, c);
        }
        assert(self.model().pending.to_set() =~= other.model().pending.to_set());
    }

    /// Returns the clause that has waited longest for its check, if one
    /// waits, and takes it from those that wait.
    pub fn get_next_clause_to_check(&mut self) -> (next: Option<usize>)
        requires
            old(self).wf(),
        ensures
            final(self).wf(),
            final(self).base() == old(self).base(),
            final(self).model().values == old(self).model().values,
            final(self).model().watches == old(self).model().watches,
            final(self).model().watchers == old(self).model().watchers,
            match next {
                Some(clause) => old(self).model().pending.len() > 0 && clause == old(
                    self,
                ).model().pending[0] && final(self).model().pending == old(
                    self,
                ).model().pending.drop_first() && clause < final(self).model().watches.len(),
                None => old(self).model().pending.len() == 0 && final(self).model().pending.len()
                    == 0,
            },
    {
        let next = self.clauses_to_check.pop_front();
        proof {
            if next is Some {
                assert(old(self).model().pending[0] < old(self).model().watches.len());
            }
        }
        next
    }

    /// Returns the members of the clause.
    pub fn get_clause_members(&self, id: usize) -> (members: &Vec<(usize, bool)>)
        requires
            self.wf(),
            id < self.base().clauses@.len(),
        ensures
            members@ == self.base().clauses@[id as int].spec_members(),
    {
        self.clauses[id].get_members()
    }

    /// Checks the clause under the values of the arguments and moves its
    /// watches. Returns the literal that the clause propagates.
    pub fn check_clause_propagation(&mut self, id: usize) -> (literal: Option<(usize, bool)>)
        requires
            old(self).wf(),
            id < old(self).base().clauses@.len(),
        ensures
            final(self).wf(),
            final(self).base() == old(self).base(),
            final(self).model().values == old(self).model().values,
            final(self).model().pending == old(self).model().pending,
            literal == propagation(
                old(self).base().clauses@[id as int].spec_members(),
                old(self).assignment(),
                old(self).model().watches[id as int],
            ).0,
            final(self).model().watches == old(self).model().watches.update(
                id as int,
                watches_after(
                    old(self).model().watches[id as int],
                    propagation(
                        old(self).base().clauses@[id as int].spec_members(),
                        old(self).assignment(),
                        old(self).model().watches[id as int],
                    ),
                ),
            ),
    {
        proof {
            self.base().lemma_clause(id as int);
            lemma_propagation(
                self.base().clauses@[id as int].spec_members(),
                self.assignment(),
                self.model().watches[id as int],
            );
        }
        let ghost members = self.base().clauses@[id as int].spec_members();
        let ghost watches = self.model().watches[id as int];
        let (result, first_watch_update, second_watch_update) = self.clauses[id].check_propagation(
            &*self,
        );
        if let Some(update) = first_watch_update {
            self.move_watch(id, 0, update);
        }
        if let Some(update) = second_watch_update {
            self.move_watch(id, 1, update);
        }
        proof {
            assert(self.model().watches =~= old(self).model().watches.update(
                id as int,
                watches_after(watches, (result, first_watch_update, second_watch_update)),
            ));
        }
        result
    }

    /// Returns the index of the last clause.
    pub fn get_max_clause_index(&self) -> (index: usize)
        requires
            self.wf(),
            self.base().clauses@.len() >= 1,
        ensures
            index == self.base().clauses@.len() - 1,
    {
        self.base.clauses.len() - 1
    }

    /// Returns the number of clauses.
    pub fn get_clause_count(&self) -> (count: usize)
        ensures
            count == self.base().clauses@.len(),
    {
        self.base.clauses.len()
    }

    /// Returns the rule of a clause of the proof.
    pub fn get_verifier(&self, id: usize) -> (verifier: &VerifierType)
        requires
            self.wf(),
            self.base().proof_start <= id < self.base().clauses@.len(),
        ensures
            Some(*verifier) == self.base().clauses@[id as int].spec_verifier(),
    {
        self.clauses[id].get_verifier()
    }

    /// Notes that the clause watches the argument with the given sign, or
    /// that it no longer does.
    pub fn set_argument_watch(&mut self, add: bool, index: usize, clause_id: usize, sign: bool)
        requires
            index < old(self).model().watchers.len(),
        ensures
            final(self).same_but_watchers(*old(self)),
            final(self).model().watchers == if add {
                with_watcher(old(self).model().watchers, (index, sign), clause_id)
            } else {
                without_watcher(old(self).model().watchers, (index, sign), clause_id)
            },
    {
        let ghost arguments_before = self.arguments@;
        if add {
            self.arguments[index].add_watched_in(clause_id, sign);
        } else {
            self.arguments[index].remove_watched_in(clause_id, sign);
        }
        proof {
            assert forall|a: int| 0 <= a < self.arguments@.len() && a != index implies self.arguments@[a]
                == arguments_before[a] by {}
            assert(self.model().values =~= old(self).model().values);
            assert(self.model().watches =~= old(self).model().watches);
            if add {
                assert(self.model().watchers =~= with_watcher(
                    old(self).model().watchers,
                    (index, sign),
                    clause_id,
                ));
            } else {
                assert(self.model().watchers =~= without_watcher(
                    old(self).model().watchers,
                    (index, sign),
                    clause_id,
                ));
            }
        }
    }

    /// Returns the value of the argument, if it has one.
    pub fn get_argument_value(&self, index: usize) -> (value: Option<bool>)
        requires
            index < self.model().values.len(),
        ensures
            value == self.model().values[index as int],
            value matches Some(sign) ==> self.assignment().contains_key(index)
                && self.assignment()[index] == sign,
            value is None ==> !self.assignment().contains_key(index),
    {
        self.arguments[index].get_value(self.iteration)
    }

    /// Gives the argument a value, and lets the clauses wait for their check
    /// that watch it with the other sign: each of them once, in no
    /// particular order, behind those that wait already.
    pub fn set_argument_value(&mut self, index: usize, value: bool)
        requires
            old(self).wf(),
            index < old(self).model().values.len(),
        ensures
            final(self).wf(),
            final(self).base() == old(self).base(),
            final(self).model().values == old(self).model().values.update(
                index as int,
                Some(value),
            ),
            final(self).model().watches == old(self).model().watches,
            final(self).model().watchers == old(self).model().watchers,
            final(self).model().pending.len() >= old(self).model().pending.len(),
            final(self).model().pending.subrange(0, old(self).model().pending.len() as int) == old(
                self,
            ).model().pending,
            final(self).model().pending.subrange(
                old(self).model().pending.len() as int,
                final(self).model().pending.len() as int,
            ).to_set() == watchers_of(old(self).model().watchers, (index, !value)),
            final(self).model().pending.subrange(
                old(self).model().pending.len() as int,
                final(self).model().pending.len() as int,
            ).no_duplicates(),
    {
        let ghost arguments_before = self.arguments@;
        let ghost pending_before = self.clauses_to_check@;
        let iteration = self.iteration;
        self.arguments[index].set_value(value, iteration, &mut self.clauses_to_check);
        proof {
            assert forall|a: int| 0 <= a < self.arguments@.len() && a != index implies self.arguments@[a]
                == arguments_before[a] by {}
            assert(self.model().values =~= old(self).model().values.update(
                index as int,
                Some(value),
            ));
            assert(self.model().watches =~= old(self).model().watches);
            assert(self.model().watchers =~= old(self).model().watchers);
            let pending = self.model().pending;
            let added = pending.subrange(pending_before.len() as int, pending.len() as int);
            assert(pending_before == old(self).model().pending);
            assert forall|i: int| 0 <= i < pending.len() implies #[trigger] pending[i]
                < self.model().watches.len() by {
                if i < pending_before.len() {
                    assert(pending[i] == pending.subrange(0, pending_before.len() as int)[i]);
                    assert(old(self).model().pending[i] < old(self).model().watches.len());
                } else {
                    assert(pending[i] == added[i - pending_before.len()]);
                    assert(added.to_set().contains(pending[i]));
                    assert(watchers_of(old(self).model().watchers, (index, !value)).contains(
                        pending[i],
                    ));
                }
            }
        }
    }

    /// Raises the shared flag of the clause and tells whether this call was
    /// the one that raised it.
    pub fn set_clause_used(&self, index: usize) -> bool
        requires
            self.wf(),
            index < self.base().clauses@.len(),
    {
        self.base.clauses[index].set_used()
    }

    /// Tells whether the clause can be seen from the verification index: it
    /// is not deleted, or deleted only behind the index.
    pub fn clause_is_not_deleted_for(&self, clause_index: usize, verification_index: usize) -> (visible:
        bool)
        requires
            self.wf(),
            clause_index < self.base().clauses@.len(),
        ensures
            visible == not_deleted_for(
                self.base().clauses@[clause_index as int].spec_deleted_at(),
                verification_index as int,
            ),
    {
        if let Some(deletion_index) = self.clauses[clause_index].deleted_at() {
            deletion_index > verification_index
        } else {
            true
        }
    }

    /// Returns the attacks on the argument, in ascending order.
    pub fn get_attacked_by(&self, argument_index: usize) -> (attacks: &Vec<usize>)
        requires
            self.wf(),
            argument_index < self.base().arguments@.len(),
        ensures
            attacks@ == self.base().arguments@[argument_index as int].spec_attacked_by(),
    {
        self.base.arguments[argument_index].get_attacked_by()
    }

    /// Starts the next iteration, in which no argument has a value.
    fn start_iteration(&mut self)
        requires
            old(self).wf(),
        ensures
            final(self).wf(),
            final(self).base() == old(self).base(),
            final(self).model().watches == old(self).model().watches,
            final(self).model().watchers == old(self).model().watchers,
            final(self).model().pending == old(self).model().pending,
            final(self).assignment() == Map::<usize, bool>::empty(),
    {
        if self.iteration == usize::MAX {
            let mut index: usize = 0;
            while index < self.arguments.len()
                invariant
                    index <= self.arguments@.len(),
                    self.arguments@.len() == old(self).arguments@.len(),
                    self.base == old(self).base,
                    self.clauses == old(self).clauses,
                    self.clauses_to_check == old(self).clauses_to_check,
                    forall|a: int|
                        0 <= a < index ==> (#[trigger] self.arguments@[a]).spec_iteration() == 0,
                    forall|a: int|
                        0 <= a < self.arguments@.len() ==> (#[trigger] self.arguments@[a]).watched(
                            true,
                        ) == old(self).arguments@[a].watched(true) && self.arguments@[a].watched(
                            false,
                        ) == old(self).arguments@[a].watched(false),
                decreases self.arguments@.len() - index,
            {
                self.arguments[index].forget();
                index += 1;
            }
            self.iteration = 1;
        } else {
            self.iteration = self.iteration + 1;
        }
        proof {
            assert(self.model().values =~= Seq::new(
                self.arguments@.len(),
                |a: int| None::<bool>,
            ));
            assert(self.assignment() =~= Map::<usize, bool>::empty());
            assert(self.model().watches =~= old(self).model().watches);
            assert(self.model().watchers =~= old(self).model().watchers);
            assert(self.model().pending == old(self).model().pending);
        }
    }

    /// Moves a watch of the clause and tells the arguments of the two
    /// literals so.
    fn move_watch(&mut self, id: usize, watch: usize, update: WatchUpdate)
        requires
            old(self).wf(),
            id < old(self).base().clauses@.len(),
            watch < 2,
            old(self).base().clauses@[id as int].spec_members().len() >= 2,
            update.0 < old(self).base().clauses@[id as int].spec_members().len(),
            update.2 == old(self).base().clauses@[id as int].spec_members()[update.0 as int],
            watch == 0 ==> update.1 == old(self).base().clauses@[id as int].spec_members()[old(
                self,
            ).model().watches[id as int].0 as int] && update.0 != old(self).model().watches[id as int].1
                && update.0 != old(self).model().watches[id as int].0,
            watch == 1 ==> update.1 == old(self).base().clauses@[id as int].spec_members()[old(
                self,
            ).model().watches[id as int].1 as int] && update.0 != old(self).model().watches[id as int].0
                && update.0 != old(self).model().watches[id as int].1,
        ensures
            final(self).wf(),
            final(self).base() == old(self).base(),
            final(self).model().values == old(self).model().values,
            final(self).model().pending == old(self).model().pending,
            final(self).model().watches == old(self).model().watches.update(
                id as int,
                if watch == 0 {
                    (update.0, old(self).model().watches[id as int].1)
                } else {
                    (old(self).model().watches[id as int].0, update.0)
                },
            ),
    {
        let (
            watch_index,
            (remove_argument_index, remove_argument_sign),
            (add_argument_index, add_argument_sign),
        ) = update;
        let ghost base = self.base();
        let ghost members = base.clauses@[id as int].spec_members();
        let ghost old_watchers = self.model().watchers;
        let ghost old_watches = self.model().watches;
        let ghost clauses_before = self.clauses@;
        proof {
            base.lemma_clause(id as int);
        }
        self.clauses[id].set_watch(watch, watch_index);
        proof {
            assert forall|c: int| 0 <= c < self.clauses@.len() && c != id implies self.clauses@[c]
                == clauses_before[c] by {}
            assert(self.model().watches =~= old_watches.update(
                id as int,
                if watch == 0 {
                    (update.0, old_watches[id as int].1)
                } else {
                    (old_watches[id as int].0, update.0)
                },
            ));
            assert(self.model().watchers =~= old_watchers);
            assert(self.model().values =~= old(self).model().values);
        }
        self.set_argument_watch(false, remove_argument_index, id, remove_argument_sign);
        self.set_argument_watch(true, add_argument_index, id, add_argument_sign);
        proof {
            let watchers = self.model().watchers;
            let watches = self.model().watches;
            let other = if watch == 0 {
                members[old_watches[id as int].1 as int]
            } else {
                members[old_watches[id as int].0 as int]
            };
            assert(update.1.0 != update.2.0);
            assert(other.0 != update.2.0);
            assert(other.0 != update.1.0);
            assert forall|c: int| 0 <= c < watches.len() implies watches_fit(
                base.clauses@[c].spec_members(),
                #[trigger] watches[c],
            ) by {
                if c != id {
                    assert(watches[c] == old_watches[c]);
                }
            }
            assert forall|c: int| 0 <= c < watches.len() implies watchers_of(
                watchers,
                base.clauses@[c].spec_members()[(#[trigger] watches[c]).0 as int],
            ).contains(c as usize) && watchers_of(
                watchers,
                base.clauses@[c].spec_members()[watches[c].1 as int],
            ).contains(c as usize) by {
                base.lemma_clause(c);
                if c != id {
                    assert(watches[c] == old_watches[c]);
                    assert(watches_fit(base.clauses@[c].spec_members(), old_watches[c]));
                }
            }
            assert forall|a: usize, sign: bool, c: usize|
                a < watchers.len() && #[trigger] watchers_of(watchers, (a, sign)).contains(
                    c,
                ) implies c < watches.len() && watches_literal(
                base.clauses@[c as int].spec_members(),
                watches[c as int],
                (a, sign),
            ) by {
                if c != id {
                    assert(watchers_of(old_watchers, (a, sign)).contains(c));
                    assert(watches[c as int] == old_watches[c as int]);
                } else {
                    if (a, sign) != update.2 {
                        assert(watchers_of(old_watchers, (a, sign)).contains(c));
                        assert((a, sign) != update.1);
                    }
                }
            }
            assert(self.model().pending == old(self).model().pending);
        }
    }

    /// After an argument without a value has got one, a clause that was calm
    /// or waited for its check is calm or waits for its check.
    pub proof fn lemma_settled_after_value(
        self,
        before: InstanceView,
        argument: usize,
        value: bool,
        c: int,
    )
        requires
            before.wf(),
            self.wf(),
            0 <= c < before.model().watches.len(),
            calm(
                before.base().clauses@[c].spec_members(),
                before.assignment(),
                before.model().watches[c],
            ) || before.model().pending.contains(c as usize),
            argument < before.model().values.len(),
            self.base() == before.base(),
            before.model().values[argument as int] is None || before.model().values[argument as int]
                == Some(value),
            self.model().values == before.model().values.update(argument as int, Some(value)),
            self.model().watches == before.model().watches,
            self.model().watchers == before.model().watchers,
            self.model().pending.len() >= before.model().pending.len(),
            self.model().pending.subrange(0, before.model().pending.len() as int)
                == before.model().pending,
            self.model().pending.subrange(
                before.model().pending.len() as int,
                self.model().pending.len() as int,
            ).to_set() == watchers_of(before.model().watchers, (argument, !value)),
        ensures
            calm(self.base().clauses@[c].spec_members(), self.assignment(), self.model().watches[c])
                || self.model().pending.contains(c as usize),
    {
        let base = self.base();
        let pending = self.model().pending;
        let old_pending = before.model().pending;
        let added = pending.subrange(old_pending.len() as int, pending.len() as int);
        base.lemma_clause(c);
        let members = base.clauses@[c].spec_members();
        let watches = self.model().watches[c];
        assert(watches_fit(members, watches));
        if old_pending.contains(c as usize) {
            let i = choose|i: int| 0 <= i < old_pending.len() && old_pending[i] == c as usize;
            assert(pending.subrange(0, old_pending.len() as int)[i] == c as usize);
            assert(pending[i] == c as usize);
        } else {
            if clause_satisfied(before.assignment(), members) {
                let i = choose|i: int|
                    0 <= i < members.len() && satisfied_by(
                        before.assignment(),
                        #[trigger] members[i],
                    );
                assert(satisfied_by(self.assignment(), members[i]));
            } else {
                let first = members[watches.0 as int];
                let second = members[watches.1 as int];
                if first.0 == argument || second.0 == argument {
                    let literal = if first.0 == argument {
                        first
                    } else {
                        second
                    };
                    if literal.1 == value {
                        assert(satisfied_by(self.assignment(), literal));
                    } else {
                        assert(watchers_of(before.model().watchers, literal).contains(c as usize));
                        assert(literal == (argument, !value));
                        assert(added.to_set().contains(c as usize));
                        assert(added.contains(c as usize));
                        let i = choose|i: int| 0 <= i < added.len() && added[i] == c as usize;
                        assert(pending[old_pending.len() + i] == c as usize);
                    }
                }
            }
        }
    }
}

} // verus!
