//! The stability witness rule.

use crate::instance_base::{target_of, InstanceBase};
use crate::instance_view::InstanceView;
use crate::verifiers::verification_helpers::{arguments_of, collect_arguments};
use crate::verifiers::verification_helpers::lemma_listed_attacks;
use std::collections::HashSet;
use vstd::prelude::*;

verus! {

/// Every member has positive sign.
pub open spec fn all_positive(members: Seq<(usize, bool)>) -> bool {
    forall|i: int| 0 <= i < members.len() ==> (#[trigger] members[i]).1
}

/// Some attacker of the attack is among the arguments: a member of the
/// clause behind its first.
pub open spec fn has_witness(arguments: Set<usize>, members: Seq<(usize, bool)>) -> bool {
    exists|j: int| 1 <= j < members.len() && arguments.contains((#[trigger] members[j]).0)
}

/// Each attack of the framework on the target has an attacker among the
/// arguments.
pub open spec fn attacks_witnessed(arguments: Set<usize>, target: usize, base: InstanceBase) -> bool {
    forall|i: int|
        0 <= i < base.proof_start && target_of(#[trigger] base.clauses@[i]) == target
            ==> has_witness(arguments, base.clauses@[i].spec_members())
}

/// What the stability witness rule asks of a clause: its members are all
/// positive, and each attack of the framework on the argument of its first
/// member has an attacker among the arguments of the clause.
pub open spec fn stability_holds(base: InstanceBase, index: int) -> bool {
    let members = base.clauses@[index].spec_members();
    all_positive(members) && attacks_witnessed(arguments_of(members), members[0].0, base)
}

/// Tells whether some attacker of the attack is among the arguments.
pub fn holds_witness(clause_support: &HashSet<usize>, members: &Vec<(usize, bool)>) -> (found: bool)
    ensures
        found == has_witness(clause_support@, members@),
{
    broadcast use vstd::std_specs::hash::group_hash_axioms;

    let mut position: usize = 1;
    while position < members.len()
        invariant
            1 <= position,
            forall|j: int|
                1 <= j < position && j < members@.len() ==> !clause_support@.contains(
                    (#[trigger] members@[j]).0,
                ),
        decreases members@.len() - position,
    {
        let (attack_member_index, _) = members[position];
        if clause_support.contains(&attack_member_index) {
            return true;
        }
        position += 1;
    }
    false
}

/// Checks a clause by the stability witness rule. Where the check succeeds,
/// the attacks on the argument of its first member are marked as used.
#[verifier::loop_isolation(false)]
pub fn stability_verify(index: usize, instance: &InstanceView) -> (valid: bool)
    requires
        instance.wf(),
        index < instance.base().clauses@.len(),
    ensures
        valid == stability_holds(instance.base(), index as int),
{
    let ghost base = instance.base();
    proof {
        base.lemma_clause(index as int);
    }
    let clause_members = instance.get_clause_members(index);
    let (stability_argument_index, _) = clause_members[0];
    let attacked_by = instance.get_attacked_by(stability_argument_index);
    let mut position: usize = 0;
    while position < clause_members.len()
        invariant
            position <= clause_members@.len(),
            forall|i: int| 0 <= i < position ==> (#[trigger] clause_members@[i]).1,
        decreases clause_members@.len() - position,
    {
        let (_, sign) = clause_members[position];
        if !sign {
            return false;
        }
        position += 1;
    }
    let clause_support = collect_arguments(clause_members);
    proof {
        lemma_listed_attacks(stability_argument_index, base);
    }
    let mut position: usize = 0;
    while position < attacked_by.len()
        invariant
            position <= attacked_by@.len(),
            forall|k: int|
                0 <= k < position ==> has_witness(
                    clause_support@,
                    base.clauses@[(#[trigger] attacked_by@[k]) as int].spec_members(),
                ),
        decreases attacked_by@.len() - position,
    {
        let members = instance.get_clause_members(attacked_by[position]);
        if !holds_witness(&clause_support, members) {
            proof {
                let i = attacked_by@[position as int] as int;
                assert(target_of(base.clauses@[i]) == stability_argument_index);
            }
            return false;
        }
        position += 1;
    }
    proof {
        assert forall|i: int|
            0 <= i < base.proof_start && target_of(#[trigger] base.clauses@[i])
                == stability_argument_index implies has_witness(
            clause_support@,
            base.clauses@[i].spec_members(),
        ) by {
            assert(attacked_by@.contains(i as usize));
            let k = choose|k: int| 0 <= k < attacked_by@.len() && attacked_by@[k] == i as usize;
            assert(has_witness(clause_support@, base.clauses@[attacked_by@[k] as int].spec_members()));
        }
    }
    let mut position: usize = 0;
    while position < attacked_by.len()
        invariant
            position <= attacked_by@.len(),
        decreases attacked_by@.len() - position,
    {
        instance.set_clause_used(attacked_by[position]);
        position += 1;
    }
    true
}

} // verus!
