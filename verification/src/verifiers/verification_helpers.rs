//! What the witness rules share.

use crate::clause_base::ClauseBase;
use crate::instance_base::{target_of, InstanceBase};
use crate::instance_view::InstanceView;
use std::collections::HashSet;
use vstd::prelude::*;

verus! {

/// Every attacker of the attack is among the arguments: each member of the
/// clause behind its first.
pub open spec fn attackers_within(arguments: Set<usize>, members: Seq<(usize, bool)>) -> bool {
    forall|j: int| 1 <= j < members.len() ==> arguments.contains((#[trigger] members[j]).0)
}

/// One of the listed attacks has all its attackers among the arguments.
pub open spec fn some_within(
    arguments: Set<usize>,
    attacks: Seq<usize>,
    clauses: Seq<ClauseBase>,
) -> bool {
    exists|k: int|
        0 <= k < attacks.len() && attackers_within(
            arguments,
            clauses[(#[trigger] attacks[k]) as int].spec_members(),
        )
}

/// The arguments attack the target: some attack of the framework on the
/// target has all its attackers among them.
pub open spec fn countered(arguments: Set<usize>, target: usize, base: InstanceBase) -> bool {
    exists|i: int|
        0 <= i < base.proof_start && target_of(#[trigger] base.clauses@[i]) == target
            && attackers_within(arguments, base.clauses@[i].spec_members())
}

/// The arguments of the members of a clause.
pub open spec fn arguments_of(members: Seq<(usize, bool)>) -> Set<usize> {
    Set::new(|a: usize| exists|i: int| 0 <= i < members.len() && (#[trigger] members[i]).0 == a)
}

/// The attacks that an argument lists are the attacks of the framework on
/// it.
pub proof fn lemma_listed_attacks(target: usize, base: InstanceBase)
    requires
        base.wf(),
        target < base.arguments@.len(),
    ensures
        forall|k: int|
            0 <= k < base.arguments@[target as int].spec_attacked_by().len() ==> (
            #[trigger] base.arguments@[target as int].spec_attacked_by()[k]) < base.proof_start
                && target_of(
                base.clauses@[base.arguments@[target as int].spec_attacked_by()[k] as int],
            ) == target,
        forall|i: int|
            0 <= i < base.proof_start && target_of(#[trigger] base.clauses@[i]) == target
                ==> base.arguments@[target as int].spec_attacked_by().contains(i as usize),
{
    assert(base.arguments@[target as int].spec_id() == target);
}

/// One of the attacks that an argument lists has all its attackers among
/// the arguments if and only if these attack the argument.
pub proof fn lemma_listed_counter(arguments: Set<usize>, target: usize, base: InstanceBase)
    requires
        base.wf(),
        target < base.arguments@.len(),
    ensures
        some_within(arguments, base.arguments@[target as int].spec_attacked_by(), base.clauses@)
            == countered(arguments, target, base),
{
    let list = base.arguments@[target as int].spec_attacked_by();
    lemma_listed_attacks(target, base);
    if some_within(arguments, list, base.clauses@) {
        let k = choose|k: int|
            0 <= k < list.len() && attackers_within(
                arguments,
                base.clauses@[(#[trigger] list[k]) as int].spec_members(),
            );
        let i = list[k] as int;
        assert(target_of(base.clauses@[i]) == target);
    }
    if countered(arguments, target, base) {
        let i = choose|i: int|
            0 <= i < base.proof_start && target_of(#[trigger] base.clauses@[i]) == target
                && attackers_within(arguments, base.clauses@[i].spec_members());
        assert(list.contains(i as usize));
        let k = choose|k: int| 0 <= k < list.len() && list[k] == i as usize;
        assert(attackers_within(arguments, base.clauses@[list[k] as int].spec_members()));
    }
}

/// Collects the arguments of the members of a clause.
pub fn collect_arguments(members: &Vec<(usize, bool)>) -> (arguments: HashSet<usize>)
    ensures
        arguments@ == arguments_of(members@),
{
    broadcast use vstd::std_specs::hash::group_hash_axioms;

    let mut arguments: HashSet<usize> = HashSet::new();
    let mut position: usize = 0;
    while position < members.len()
        invariant
            position <= members@.len(),
            arguments@ == arguments_of(members@.subrange(0, position as int)),
        decreases members@.len() - position,
    {
        let (argument, _) = members[position];
        let ghost before = arguments@;
        arguments.insert(argument);
        proof {
            let so_far = members@.subrange(0, position as int);
            let next = members@.subrange(0, position + 1);
            assert forall|a: usize| arguments@.contains(a) == arguments_of(next).contains(a) by {
                if before.contains(a) {
                    let i = choose|i: int| 0 <= i < so_far.len() && (#[trigger] so_far[i]).0 == a;
                    assert(next[i].0 == a);
                }
                if a == argument {
                    assert(next[position as int].0 == a);
                }
                if arguments_of(next).contains(a) {
                    let i = choose|i: int| 0 <= i < next.len() && (#[trigger] next[i]).0 == a;
                    if i < position {
                        assert(so_far[i].0 == a);
                    }
                }
            }
            assert(arguments@ =~= arguments_of(next));
        }
        position += 1;
    }
    proof {
        assert(members@.subrange(0, position as int) =~= members@);
    }
    arguments
}

/// Tells whether every attacker of the attack is among the arguments.
pub fn holds_attackers(clause_members: &HashSet<usize>, members: &Vec<(usize, bool)>) -> (within: bool)
    ensures
        within == attackers_within(clause_members@, members@),
{
    broadcast use vstd::std_specs::hash::group_hash_axioms;

    let mut position: usize = 1;
    while position < members.len()
        invariant
            1 <= position,
            forall|j: int|
                1 <= j < position && j < members@.len() ==> clause_members@.contains(
                    (#[trigger] members@[j]).0,
                ),
        decreases members@.len() - position,
    {
        let (attack_member_index, _) = members[position];
        if !clause_members.contains(&attack_member_index) {
            return false;
        }
        position += 1;
    }
    true
}

/// Tells whether one of the attacks has all its attackers among the
/// arguments: whether the attacks hold the witnesses of a counter-attack.
pub fn contains_clause_witnesses(
    clause_members: &HashSet<usize>,
    attacked_by: &Vec<usize>,
    instance: &InstanceView,
) -> (found: bool)
    requires
        instance.wf(),
        forall|k: int|
            0 <= k < attacked_by@.len() ==> (#[trigger] attacked_by@[k])
                < instance.base().clauses@.len(),
    ensures
        found == some_within(clause_members@, attacked_by@, instance.base().clauses@),
{
    let ghost clauses = instance.base().clauses@;
    let mut position: usize = 0;
    while position < attacked_by.len()
        invariant
            position <= attacked_by@.len(),
            instance.wf(),
            clauses == instance.base().clauses@,
            forall|k: int| 0 <= k < attacked_by@.len() ==> (#[trigger] attacked_by@[k]) < clauses.len(),
            forall|k: int|
                0 <= k < position ==> !attackers_within(
                    clause_members@,
                    clauses[(#[trigger] attacked_by@[k]) as int].spec_members(),
                ),
        decreases attacked_by@.len() - position,
    {
        let members = instance.get_clause_members(attacked_by[position]);
        if holds_attackers(clause_members, members) {
            return true;
        }
        position += 1;
    }
    false
}

} // verus!
