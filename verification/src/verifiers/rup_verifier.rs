//! Reverse unit propagation.

use crate::clause_base::{arguments_below, ClauseModel};
use crate::instance_base::InstanceBase;
use crate::instance_view::InstanceView;
use crate::parsers::proof_text::models_of;
use crate::propagation::{calm, holds_all, quiet};
use crate::propagation::{lemma_calm_is_quiet, lemma_forced_holds, lemma_propagation};
use crate::propagation::{propagation, refuted, satisfied_by, visible_at, withstands};
use vstd::prelude::*;

verus! {

/// The index from which a clause is checked: its own, or for the empty
/// clause the number of clauses.
pub open spec fn verification_index_of(base: InstanceBase, index: Option<usize>) -> int {
    match index {
        Some(index) => index as int,
        None => base.clauses@.len() as int,
    }
}

/// What a check by unit propagation assumes: the required arguments and the
/// members of the clause.
pub open spec fn assumptions_of(base: InstanceBase, index: Option<usize>) -> Seq<(usize, bool)> {
    match index {
        Some(index) => base.required_arguments@ + base.clauses@[index as int].spec_members(),
        None => base.required_arguments@,
    }
}

/// Every assignment that withstands holds the given values.
pub open spec fn in_every_model(
    values: Map<usize, bool>,
    clauses: Seq<ClauseModel>,
    verification_index: int,
    assumptions: Seq<(usize, bool)>,
) -> bool {
    forall|assignment: Map<usize, bool>| #[trigger]
        withstands(assignment, clauses, verification_index, assumptions) ==> values.submap_of(
            assignment,
        )
}

/// Every clause that takes part at the verification index is calm or waits
/// for its check.
pub open spec fn settled_at(instance: InstanceView, verification_index: int) -> bool {
    forall|c: int|
        0 <= c < instance.model().watches.len() && visible_at(
            instance.base().clauses@[c].model(),
            c,
            verification_index,
        ) ==> calm(
            instance.base().clauses@[c].spec_members(),
            instance.assignment(),
            #[trigger] instance.model().watches[c],
        ) || instance.model().pending.contains(c as usize)
}

/// The number of arguments without a value.
pub open spec fn open_count(values: Seq<Option<bool>>) -> nat
    decreases values.len(),
{
    if values.len() == 0 {
        0
    } else {
        open_count(values.drop_last()) + if values.last() is None {
            1nat
        } else {
            0nat
        }
    }
}

/// A value for an argument that had none leaves one argument less without.
pub proof fn lemma_open_count_update(values: Seq<Option<bool>>, argument: int, value: bool)
    requires
        0 <= argument < values.len(),
        values[argument] is None,
    ensures
        open_count(values.update(argument, Some(value))) + 1 == open_count(values),
    decreases values.len(),
{
    let after = values.update(argument, Some(value));
    if argument == values.len() - 1 {
        assert(after.drop_last() =~= values.drop_last());
    } else {
        lemma_open_count_update(values.drop_last(), argument, value);
        assert(after.drop_last() =~= values.drop_last().update(argument, Some(value)));
    }
}

/// Checks a clause of the proof, or the empty clause, by reverse unit
/// propagation: the required arguments and the members of the clause are
/// assumed, and the clauses that take part at the verification index
/// propagate until a conflict shows or nothing is left to do.
///
/// Returns whether a conflict showed. Each clause that has propagated is
/// marked as used; those that this call was the first to mark are added to
/// the dependencies.
pub fn rup_verify(index: Option<usize>, instance: &mut InstanceView, dependencies: &mut Vec<usize>) -> (found:
    bool)
    requires
        old(instance).wf(),
        index matches Some(clause) ==> clause < old(instance).base().clauses@.len(),
    ensures
        final(instance).wf(),
        final(instance).base() == old(instance).base(),
        found == refuted(
            models_of(old(instance).base().clauses@),
            verification_index_of(old(instance).base(), index),
            assumptions_of(old(instance).base(), index),
        ),
        !found ==> withstands(
            final(instance).assignment(),
            models_of(old(instance).base().clauses@),
            verification_index_of(old(instance).base(), index),
            assumptions_of(old(instance).base(), index),
        ),
        final(dependencies)@.len() >= old(dependencies)@.len(),
        final(dependencies)@.subrange(0, old(dependencies)@.len() as int) == old(dependencies)@,
        forall|k: int|
            old(dependencies)@.len() <= k < final(dependencies)@.len() ==> (
            #[trigger] final(dependencies)@[k]) < old(instance).base().clauses@.len() && visible_at(
                old(instance).base().clauses@[final(dependencies)@[k] as int].model(),
                final(dependencies)@[k] as int,
                verification_index_of(old(instance).base(), index),
            ),
{
    let ghost base = instance.base();
    let ghost clauses = models_of(base.clauses@);
    let ghost verification = verification_index_of(base, index);
    let ghost assumptions = assumptions_of(base, index);
    let ghost known = dependencies@;
    instance.reset();
    let verification_index = match index {
        Some(clause) => clause,
        None => instance.get_clause_count(),
    };
    proof {
        assert forall|assignment: Map<usize, bool>| #[trigger]
            withstands(
                assignment,
                clauses,
                verification,
                assumptions,
            ) implies instance.assignment().submap_of(assignment) by {
            assert(instance.fresh());
            assert forall|a: usize| #[trigger]
                instance.assignment().contains_key(a) implies assignment.contains_key(a)
                && assignment[a] == instance.assignment()[a] by {
                let k = choose|k: int|
                    0 <= k < base.required_arguments@.len() && #[trigger] base.required_arguments@[k]
                        == (a, instance.assignment()[a]);
                assert(assumptions[k] == base.required_arguments@[k]);
                assert(satisfied_by(assignment, assumptions[k]));
            }
        }
    }
    if let Some(clause) = index {
        let count = instance.get_clause_members(clause).len();
        let ghost members = base.clauses@[clause as int].spec_members();
        let mut position: usize = 0;
        proof {
            base.lemma_clause(clause as int);
            assert(base.required_arguments@ + members.subrange(0, 0) =~= base.required_arguments@);
        }
        while position < count
            invariant
                position <= count,
                count == members.len(),
                clause < base.clauses@.len(),
                members == base.clauses@[clause as int].spec_members(),
                instance.wf(),
                instance.base() == base,
                base == old(instance).base(),
                index == Some(clause),
                dependencies@ == old(dependencies)@,
                clauses == models_of(base.clauses@),
                verification == clause,
                assumptions == base.required_arguments@ + members,
                arguments_below(members, instance.model().values.len()),
                in_every_model(instance.assignment(), clauses, verification, assumptions),
                holds_all(
                    instance.assignment(),
                    base.required_arguments@ + members.subrange(0, position as int),
                ),
                instance.settled(),
            decreases count - position,
        {
            let (argument, value) = instance.get_clause_members(clause)[position];
            let ghost before = *instance;
            let ghost literal = members[position as int];
            proof {
                assert(assumptions[base.required_arguments@.len() + position] == literal);
            }
            match instance.get_argument_value(argument) {
                Some(current) => {
                    if current != value {
                        proof {
                            assert forall|assignment: Map<usize, bool>|
                                !#[trigger] withstands(
                                    assignment,
                                    clauses,
                                    verification,
                                    assumptions,
                                ) by {
                                if withstands(assignment, clauses, verification, assumptions) {
                                    assert(instance.assignment().submap_of(assignment));
                                    assert(instance.assignment().dom().contains(argument));
                                    assert(satisfied_by(
                                        assignment,
                                        assumptions[base.required_arguments@.len() + position],
                                    ));
                                }
                            }
                        }
                        return true;
                    }
                },
                None => {
                    instance.set_argument_value(argument, value);
                    proof {
                        assert forall|assignment: Map<usize, bool>| #[trigger]
                            withstands(
                                assignment,
                                clauses,
                                verification,
                                assumptions,
                            ) implies instance.assignment().submap_of(assignment) by {
                            assert(before.assignment().submap_of(assignment));
                            assert(satisfied_by(
                                assignment,
                                assumptions[base.required_arguments@.len() + position],
                            ));
                            assert(literal == (argument, value));
                            assert(satisfied_by(assignment, (argument, value)));
                            assert forall|a: usize| #[trigger]
                                instance.assignment().contains_key(a) implies assignment.contains_key(
                                a,
                            ) && assignment[a] == instance.assignment()[a] by {
                                if a != argument {
                                    assert(instance.model().values[a as int]
                                        == before.model().values[a as int]);
                                    assert(before.assignment().dom().contains(a));
                                    assert(before.assignment()[a] == instance.assignment()[a]);
                                    assert(assignment.dom().contains(a));
                                    assert(assignment[a] == before.assignment()[a]);
                                } else {
                                    assert(instance.model().values[argument as int] == Some(
                                        value,
                                    ));
                                    assert(instance.assignment()[argument] == value);
                                    assert(assignment.contains_key(argument));
                                    assert(assignment[argument] == value);
                                }
                            }
                        }
                        assert forall|c: int| 0 <= c < instance.model().watches.len() implies calm(
                            instance.base().clauses@[c].spec_members(),
                            instance.assignment(),
                            #[trigger] instance.model().watches[c],
                        ) || instance.model().pending.contains(c as usize) by {
                            assert(calm(
                                before.base().clauses@[c].spec_members(),
                                before.assignment(),
                                before.model().watches[c],
                            ) || before.model().pending.contains(c as usize));
                            instance.lemma_settled_after_value(before, argument, value, c);
                        }
                    }
                },
            }
            proof {
                let so_far = base.required_arguments@ + members.subrange(0, position as int);
                let next = base.required_arguments@ + members.subrange(0, position + 1);
                assert forall|i: int| 0 <= i < next.len() implies satisfied_by(
                    instance.assignment(),
                    #[trigger] next[i],
                ) by {
                    if i < so_far.len() {
                        assert(next[i] == so_far[i]);
                        assert(satisfied_by(before.assignment(), so_far[i]));
                    } else {
                        assert(next[i] == literal);
                    }
                }
            }
            position += 1;
        }
        proof {
            assert(members.subrange(0, position as int) =~= members);
        }
    }
    loop
        invariant
            instance.wf(),
            instance.base() == base,
            base == old(instance).base(),
            known == old(dependencies)@,
            clauses == models_of(base.clauses@),
            verification == verification_index_of(base, index),
            verification == verification_index,
            assumptions == assumptions_of(base, index),
            in_every_model(instance.assignment(), clauses, verification, assumptions),
            holds_all(instance.assignment(), assumptions),
            settled_at(*instance, verification),
            dependencies@.len() >= known.len(),
            dependencies@.subrange(0, known.len() as int) == known,
            forall|k: int|
                known.len() <= k < dependencies@.len() ==> (#[trigger] dependencies@[k])
                    < base.clauses@.len() && visible_at(
                    base.clauses@[dependencies@[k] as int].model(),
                    dependencies@[k] as int,
                    verification,
                ),
        decreases open_count(instance.model().values), instance.model().pending.len(),
    {
        let ghost before = *instance;
        let clause_index = match instance.get_next_clause_to_check() {
            None => {
                proof {
                    let assignment = instance.assignment();
                    assert forall|c: int|
                        0 <= c < clauses.len() && visible_at(
                            #[trigger] clauses[c],
                            c,
                            verification,
                        ) implies quiet(assignment, clauses[c].members) by {
                        assert(calm(
                            base.clauses@[c].spec_members(),
                            assignment,
                            instance.model().watches[c],
                        ) || instance.model().pending.contains(c as usize));
                        lemma_calm_is_quiet(
                            base.clauses@[c].spec_members(),
                            assignment,
                            instance.model().watches[c],
                        );
                    }
                    assert(withstands(assignment, clauses, verification, assumptions));
                }
                return false;
            },
            Some(clause_index) => clause_index,
        };
        proof {
            assert forall|c: int|
                0 <= c < instance.model().watches.len() && c != clause_index && visible_at(
                    instance.base().clauses@[c].model(),
                    c,
                    verification,
                ) implies calm(
                instance.base().clauses@[c].spec_members(),
                instance.assignment(),
                #[trigger] instance.model().watches[c],
            ) || instance.model().pending.contains(c as usize) by {
                assert(calm(
                    before.base().clauses@[c].spec_members(),
                    before.assignment(),
                    before.model().watches[c],
                ) || before.model().pending.contains(c as usize));
                if before.model().pending.contains(c as usize) {
                    let i = choose|i: int|
                        0 <= i < before.model().pending.len() && before.model().pending[i]
                            == c as usize;
                    assert(i != 0);
                    assert(instance.model().pending[i - 1] == c as usize);
                }
            }
        }
        if clause_index < verification_index && instance.clause_is_not_deleted_for(
            clause_index,
            verification_index,
        ) {
            let ghost popped = *instance;
            let ghost members = base.clauses@[clause_index as int].spec_members();
            let ghost outcome = propagation(
                members,
                popped.assignment(),
                popped.model().watches[clause_index as int],
            );
            proof {
                base.lemma_clause(clause_index as int);
                lemma_propagation(
                    members,
                    popped.assignment(),
                    popped.model().watches[clause_index as int],
                );
            }
            let propagated = instance.check_clause_propagation(clause_index);
            let ghost checked = *instance;
            match propagated {
                None => {},
                Some((argument, sign)) => {
                    if instance.set_clause_used(clause_index) {
                        let ghost listed = dependencies@;
                        dependencies.push(clause_index);
                        proof {
                            assert(dependencies@.subrange(0, known.len() as int)
                                =~= listed.subrange(0, known.len() as int));
                        }
                    }
                    proof {
                        assert(members.contains((argument, sign)));
                        let at = choose|at: int|
                            0 <= at < members.len() && members[at] == (argument, sign);
                        assert(members[at].0 < instance.model().values.len());
                    }
                    match instance.get_argument_value(argument) {
                        Some(current) => {
                            if current != sign {
                                proof {
                                    assert forall|assignment: Map<usize, bool>|
                                        !#[trigger] withstands(
                                            assignment,
                                            clauses,
                                            verification,
                                            assumptions,
                                        ) by {
                                        if withstands(
                                            assignment,
                                            clauses,
                                            verification,
                                            assumptions,
                                        ) {
                                            assert(instance.assignment().submap_of(assignment));
                                            assert(visible_at(
                                                clauses[clause_index as int],
                                                clause_index as int,
                                                verification,
                                            ));
                                            assert(quiet(assignment, members));
                                            lemma_forced_holds(
                                                members,
                                                instance.assignment(),
                                                assignment,
                                                (argument, sign),
                                            );
                                            assert(instance.assignment().dom().contains(argument));
                                        }
                                    }
                                }
                                return true;
                            }
                            proof {
                                assert(satisfied_by(instance.assignment(), (argument, sign)));
                                let at = choose|at: int|
                                    0 <= at < members.len() && members[at] == (argument, sign);
                                assert(satisfied_by(instance.assignment(), members[at]));
                            }
                        },
                        None => {
                            instance.set_argument_value(argument, sign);
                            proof {
                                lemma_open_count_update(
                                    checked.model().values,
                                    argument as int,
                                    sign,
                                );
                                assert forall|assignment: Map<usize, bool>| #[trigger]
                                    withstands(
                                        assignment,
                                        clauses,
                                        verification,
                                        assumptions,
                                    ) implies instance.assignment().submap_of(assignment) by {
                                    assert(checked.assignment().submap_of(assignment));
                                    assert(visible_at(
                                        clauses[clause_index as int],
                                        clause_index as int,
                                        verification,
                                    ));
                                    assert(quiet(assignment, members));
                                    lemma_forced_holds(
                                        members,
                                        checked.assignment(),
                                        assignment,
                                        (argument, sign),
                                    );
                                    assert(satisfied_by(assignment, (argument, sign)));
                                    assert forall|a: usize| #[trigger]
                                        instance.assignment().contains_key(
                                            a,
                                        ) implies assignment.contains_key(a) && assignment[a]
                                        == instance.assignment()[a] by {
                                        if a != argument {
                                            assert(instance.model().values[a as int]
                                                == checked.model().values[a as int]);
                                            assert(checked.assignment().dom().contains(a));
                                            assert(checked.assignment()[a]
                                                == instance.assignment()[a]);
                                            assert(assignment.dom().contains(a));
                                            assert(assignment[a] == checked.assignment()[a]);
                                        } else {
                                            assert(instance.model().values[argument as int]
                                                == Some(sign));
                                            assert(instance.assignment()[argument] == sign);
                                            assert(assignment.contains_key(argument));
                                            assert(assignment[argument] == sign);
                                        }
                                    }
                                }
                                assert forall|i: int| 0 <= i < assumptions.len() implies satisfied_by(
                                    instance.assignment(),
                                    #[trigger] assumptions[i],
                                ) by {
                                    assert(satisfied_by(checked.assignment(), assumptions[i]));
                                }
                                assert forall|c: int|
                                    0 <= c < instance.model().watches.len() && visible_at(
                                        instance.base().clauses@[c].model(),
                                        c,
                                        verification,
                                    ) implies calm(
                                    instance.base().clauses@[c].spec_members(),
                                    instance.assignment(),
                                    #[trigger] instance.model().watches[c],
                                ) || instance.model().pending.contains(c as usize) by {
                                    if c == clause_index {
                                        let at = choose|at: int|
                                            0 <= at < members.len() && members[at] == (
                                                argument,
                                                sign,
                                            );
                                        assert(satisfied_by(instance.assignment(), members[at]));
                                    } else {
                                        assert(checked.model().watches[c]
                                            == popped.model().watches[c]);
                                        assert(calm(
                                            popped.base().clauses@[c].spec_members(),
                                            popped.assignment(),
                                            popped.model().watches[c],
                                        ) || popped.model().pending.contains(c as usize));
                                        instance.lemma_settled_after_value(
                                            checked,
                                            argument,
                                            sign,
                                            c,
                                        );
                                    }
                                }
                            }
                        },
                    }
                },
            }
            proof {
                if propagated is None {
                    assert forall|c: int|
                        0 <= c < instance.model().watches.len() && visible_at(
                            instance.base().clauses@[c].model(),
                            c,
                            verification,
                        ) implies calm(
                        instance.base().clauses@[c].spec_members(),
                        instance.assignment(),
                        #[trigger] instance.model().watches[c],
                    ) || instance.model().pending.contains(c as usize) by {
                        if c != clause_index {
                            assert(instance.model().watches[c] == popped.model().watches[c]);
                            assert(calm(
                                popped.base().clauses@[c].spec_members(),
                                popped.assignment(),
                                popped.model().watches[c],
                            ) || popped.model().pending.contains(c as usize));
                        }
                    }
                }
            }
        }
    }
}

} // verus!
