//! The admissibility witness rule.

use crate::clause_base::arguments_below;
use crate::instance_base::{target_of, InstanceBase};
use crate::instance_view::InstanceView;
use crate::verifiers::verification_helpers::{arguments_of, collect_arguments, countered};
use crate::verifiers::verification_helpers::{contains_clause_witnesses, lemma_listed_attacks};
use crate::verifiers::verification_helpers::lemma_listed_counter;
use std::collections::HashSet;
use vstd::prelude::*;

verus! {

/// The attack is answered by the arguments: they attack each of its
/// attackers, that is, for each attacker some attack of the framework on it
/// has all its attackers among the arguments.
pub open spec fn answered(arguments: Set<usize>, attack: int, base: InstanceBase) -> bool {
    forall|j: int|
        1 <= j < base.clauses@[attack].spec_members().len() ==> countered(
            arguments,
            (#[trigger] base.clauses@[attack].spec_members()[j]).0,
            base,
        )
}

/// The clause is an attack of the framework on the target.
pub open spec fn attacks_target(base: InstanceBase, attack: int, target: usize) -> bool {
    0 <= attack < base.proof_start && target_of(base.clauses@[attack]) == target
}

/// What the admissibility witness rule asks of a clause: its first member is
/// negative, and an attack of the framework on the argument of that member
/// is answered by the arguments of the clause: the given attack, or any
/// where none is given.
pub open spec fn admissibility_holds(
    base: InstanceBase,
    index: int,
    attack_index: Option<usize>,
) -> bool {
    let members = base.clauses@[index].spec_members();
    let arguments = arguments_of(members);
    &&& !members[0].1
    &&& match attack_index {
        Some(attack) => attacks_target(base, attack as int, members[0].0) && answered(
            arguments,
            attack as int,
            base,
        ),
        None => exists|attack: int| #[trigger]
            attacks_target(base, attack, members[0].0) && answered(arguments, attack, base),
    }
}

/// Checks a clause by the admissibility witness rule, for the given attack
/// or for the first attack on the argument of its first member that the
/// arguments of the clause answer. Where the check succeeds, that attack
/// and the attacks on its attackers are marked as used.
#[verifier::loop_isolation(false)]
pub fn admissibility_verify(index: usize, instance: &InstanceView, attack_index: Option<usize>) -> (valid:
    bool)
    requires
        instance.wf(),
        index < instance.base().clauses@.len(),
    ensures
        valid == admissibility_holds(instance.base(), index as int, attack_index),
{
    let ghost base = instance.base();
    proof {
        base.lemma_clause(index as int);
    }
    let clause_members = instance.get_clause_members(index);
    let (admissibility_argument_index, admissibility_argument_sign) = clause_members[0];
    if admissibility_argument_sign {
        return false;
    }
    let attacks = instance.get_attacked_by(admissibility_argument_index);
    let clause_members = collect_arguments(clause_members);
    proof {
        lemma_listed_attacks(admissibility_argument_index, base);
    }
    if let Some(attack_index) = attack_index {
        let mut listed = false;
        let mut position: usize = 0;
        while position < attacks.len() && !listed
            invariant
                position <= attacks@.len(),
                listed ==> attacks@.contains(attack_index),
                !listed ==> forall|k: int| 0 <= k < position ==> attacks@[k] != attack_index,
            decreases attacks@.len() - position + if listed {
                0int
            } else {
                1int
            },
        {
            if attacks[position] == attack_index {
                listed = true;
            } else {
                position += 1;
            }
        }
        if !listed {
            proof {
                if attacks_target(base, attack_index as int, admissibility_argument_index) {
                    assert(target_of(base.clauses@[attack_index as int])
                        == admissibility_argument_index);
                    assert(attacks@.contains(attack_index));
                }
            }
            return false;
        }
        proof {
            let k = choose|k: int| 0 <= k < attacks@.len() && attacks@[k] == attack_index;
            assert(attacks@[k] < base.proof_start);
        }
        let valid = admissibility_verify_for_attack(&clause_members, attack_index, instance);
        if valid {
            instance.set_clause_used(attack_index);
        }
        valid
    } else {
        let mut position: usize = 0;
        while position < attacks.len()
            invariant
                position <= attacks@.len(),
                instance.wf(),
                base == instance.base(),
                attacks@ == base.arguments@[admissibility_argument_index as int].spec_attacked_by(),
                forall|k: int|
                    0 <= k < attacks@.len() ==> (#[trigger] attacks@[k]) < base.proof_start
                        && target_of(base.clauses@[attacks@[k] as int])
                        == admissibility_argument_index,
                forall|k: int|
                    0 <= k < position ==> !answered(
                        clause_members@,
                        (#[trigger] attacks@[k]) as int,
                        base,
                    ),
            decreases attacks@.len() - position,
        {
            let attack_index = attacks[position];
            if admissibility_verify_for_attack(&clause_members, attack_index, instance) {
                instance.set_clause_used(attack_index);
                proof {
                    assert(attacks_target(
                        base,
                        attack_index as int,
                        admissibility_argument_index,
                    ));
                }
                return true;
            }
            position += 1;
        }
        proof {
            assert forall|attack: int| #[trigger]
                attacks_target(base, attack, admissibility_argument_index) implies !answered(
                clause_members@,
                attack,
                base,
            ) by {
                assert(target_of(base.clauses@[attack]) == admissibility_argument_index);
                assert(attacks@.contains(attack as usize));
                let k = choose|k: int| 0 <= k < attacks@.len() && attacks@[k] == attack as usize;
                assert(!answered(clause_members@, attacks@[k] as int, base));
            }
        }
        false
    }
}

/// Tells whether the arguments answer the attack, and if so marks the
/// attacks on its attackers as used.
pub fn admissibility_verify_for_attack(
    clause_members: &HashSet<usize>,
    attack_index: usize,
    instance: &InstanceView,
) -> (valid: bool)
    requires
        instance.wf(),
        attack_index < instance.base().proof_start,
    ensures
        valid == answered(clause_members@, attack_index as int, instance.base()),
{
    let ghost base = instance.base();
    proof {
        base.lemma_clause(attack_index as int);
    }
    let members = instance.get_clause_members(attack_index);
    let mut position: usize = 1;
    while position < members.len()
        invariant
            1 <= position,
            instance.wf(),
            base == instance.base(),
            attack_index < base.proof_start,
            members@ == base.clauses@[attack_index as int].spec_members(),
            arguments_below(members@, base.arguments@.len()),
            forall|j: int|
                1 <= j < position && j < members@.len() ==> countered(
                    clause_members@,
                    (#[trigger] members@[j]).0,
                    base,
                ),
        decreases members@.len() - position,
    {
        let (attack_member_index, _) = members[position];
        let attacked_by = instance.get_attacked_by(attack_member_index);
        proof {
            lemma_listed_attacks(attack_member_index, base);
            lemma_listed_counter(clause_members@, attack_member_index, base);
        }
        if !contains_clause_witnesses(clause_members, attacked_by, instance) {
            return false;
        }
        position += 1;
    }
    let mut position: usize = 1;
    while position < members.len()
        invariant
            1 <= position,
            instance.wf(),
            base == instance.base(),
            members@ == base.clauses@[attack_index as int].spec_members(),
            arguments_below(members@, base.arguments@.len()),
        decreases members@.len() - position,
    {
        let (attack_member_index, _) = members[position];
        let attacked_by = instance.get_attacked_by(attack_member_index);
        proof {
            lemma_listed_attacks(attack_member_index, base);
        }
        let mut attack: usize = 0;
        while attack < attacked_by.len()
            invariant
                attack <= attacked_by@.len(),
                instance.wf(),
                base == instance.base(),
                forall|k: int|
                    0 <= k < attacked_by@.len() ==> (#[trigger] attacked_by@[k]) < base.proof_start,
            decreases attacked_by@.len() - attack,
        {
            instance.set_clause_used(attacked_by[attack]);
            attack += 1;
        }
        position += 1;
    }
    true
}

} // verus!
