use setaf_verifier::instance_base::InstanceBase;
use setaf_verifier::instance_view::InstanceView;
use setaf_verifier::semantics::{Semantics, VerifierType};
use setaf_verifier::verifiers::admissibility_verifier::admissibility_verify;
use setaf_verifier::verifiers::admissibility_verifier::admissibility_verify_for_attack;
use setaf_verifier::verifiers::rup_verifier::rup_verify;
use setaf_verifier::verifiers::stability_verifier::{holds_witness, stability_verify};
use setaf_verifier::verifiers::verification_helpers::{collect_arguments, contains_clause_witnesses};
use setaf_verifier::verifiers::verification_helpers::holds_attackers;
use setaf_verifier::worker::Worker;
use std::collections::HashSet;

fn rule_lines(text: &[&str]) -> Vec<Vec<u8>> {
    text.iter().map(|line| line.as_bytes().to_vec()).collect()
}

fn checked_instance(
    framework: &[&str],
    required: &[&str],
    proof: &[&str],
    semantics: Semantics,
) -> InstanceBase {
    let instance = InstanceBase::new(
        &rule_lines(framework),
        &None,
        &Some(rule_lines(required)),
        &rule_lines(proof),
        &semantics,
    )
    .unwrap();
    assert!(instance.is_required_arguments_consistent());
    instance
}

fn dependencies_in_order(dependencies: &[usize]) -> Vec<usize> {
    let mut sorted = dependencies.to_vec();
    sorted.sort();
    sorted
}

fn used_clauses(instance: &InstanceBase) -> Vec<usize> {
    instance.clauses.iter().filter(|clause| clause.is_used()).map(|clause| clause.get_index()).collect()
}

/// 2 attacks 1; 3 attacks 2; 1 and 2 together attack 3.
const CHAIN: [&str; 4] = ["3 3 0", "1 2 0", "2 3 0", "3 1 2 0"];

#[test]
fn rup_finds_the_conflict_of_the_required_arguments() {
    let instance = checked_instance(&CHAIN, &["1", "2"], &["0"], Semantics::Admissible);
    let mut view = InstanceView::new(&instance);
    let mut dependencies = vec![99];
    assert!(rup_verify(None, &mut view, &mut dependencies));
    assert_eq!(dependencies[0], 99);
    assert_eq!(dependencies.last(), Some(&0));
    assert_eq!(used_clauses(&instance), dependencies_in_order(&dependencies[1..]));
    assert!(instance.clauses[0].is_used());
    assert!(!instance.clauses[1].is_used());
}

#[test]
fn rup_fails_where_propagation_ends_without_conflict() {
    let instance = checked_instance(&CHAIN, &["1"], &["0"], Semantics::Admissible);
    let mut view = InstanceView::new(&instance);
    let mut dependencies = Vec::new();
    assert!(!rup_verify(None, &mut view, &mut dependencies));
    assert_eq!(view.get_argument_value(0), Some(true));
    assert_eq!(view.get_argument_value(1), Some(false));
    assert_eq!(view.get_argument_value(2), None);
    assert_eq!(dependencies, vec![0]);
}

#[test]
fn rup_assumes_the_members_of_the_clause() {
    let instance = checked_instance(&CHAIN, &[], &["1 2 0", "1 3 0", "0"], Semantics::Admissible);
    let mut view = InstanceView::new(&instance);
    let mut dependencies = Vec::new();
    assert!(rup_verify(Some(3), &mut view, &mut dependencies));
    assert!(!rup_verify(Some(4), &mut view, &mut dependencies));
    assert!(rup_verify(Some(3), &mut view, &mut dependencies));
}

#[test]
fn rup_finds_a_member_against_a_required_argument() {
    let instance = checked_instance(&CHAIN, &["-3"], &["1 3 0", "0"], Semantics::Admissible);
    let mut view = InstanceView::new(&instance);
    let mut dependencies = Vec::new();
    assert!(rup_verify(Some(3), &mut view, &mut dependencies));
    assert!(dependencies.is_empty());
}

#[test]
fn rup_chains_propagations() {
    let instance = checked_instance(&CHAIN, &["3"], &["1 0", "0"], Semantics::Admissible);
    let mut view = InstanceView::new(&instance);
    let mut dependencies = Vec::new();
    assert!(!rup_verify(None, &mut view, &mut dependencies));
    assert_eq!(view.get_argument_value(0), Some(true));
    assert_eq!(view.get_argument_value(1), Some(false));
    assert_eq!(view.get_argument_value(2), Some(true));
    assert!(dependencies.contains(&3));
    assert_eq!(used_clauses(&instance), dependencies_in_order(&dependencies));
    let instance = checked_instance(&CHAIN, &["3"], &["1 0", "2 0", "0"], Semantics::Admissible);
    let mut view = InstanceView::new(&instance);
    let mut dependencies = Vec::new();
    assert!(rup_verify(None, &mut view, &mut dependencies));
    assert_eq!(used_clauses(&instance), dependencies_in_order(&dependencies));
}

#[test]
fn rup_sees_the_clauses_before_the_checked_one_only() {
    let instance = checked_instance(&CHAIN, &["3"], &["1 0", "2 0", "0"], Semantics::Admissible);
    let mut view = InstanceView::new(&instance);
    let mut dependencies = Vec::new();
    assert!(!rup_verify(Some(3), &mut view, &mut dependencies));
    assert!(!dependencies.contains(&3));
    assert!(!dependencies.contains(&4));
    assert!(rup_verify(Some(4), &mut view, &mut dependencies));
    assert!(!dependencies.contains(&4));
    assert!(rup_verify(None, &mut view, &mut dependencies));
}

#[test]
fn rup_does_not_see_deleted_clauses() {
    let kept = checked_instance(&CHAIN, &["3"], &["1 0", "2 0", "0"], Semantics::Admissible);
    let mut view = InstanceView::new(&kept);
    let mut dependencies = Vec::new();
    assert!(rup_verify(None, &mut view, &mut dependencies));
    let deleted =
        checked_instance(&CHAIN, &["3"], &["1 0", "2 0", "d 2 0", "0"], Semantics::Admissible);
    let mut view = InstanceView::new(&deleted);
    let mut dependencies = Vec::new();
    assert_eq!(deleted.clauses[4].deleted_at(), Some(5));
    assert!(!rup_verify(None, &mut view, &mut dependencies));
    assert!(!dependencies.contains(&4));
    assert!(!deleted.clauses[4].is_used());
}

#[test]
fn rup_sees_a_clause_that_is_deleted_later() {
    let instance = checked_instance(
        &CHAIN,
        &["3"],
        &["2 0", "1 0", "d 2 0", "1 0", "0"],
        Semantics::Admissible,
    );
    let mut view = InstanceView::new(&instance);
    let mut dependencies = Vec::new();
    assert_eq!(instance.clauses[3].deleted_at(), Some(5));
    assert!(rup_verify(Some(4), &mut view, &mut dependencies));
    assert!(dependencies.contains(&3));
    assert!(!rup_verify(Some(5), &mut view, &mut dependencies));
    assert!(!rup_verify(None, &mut view, &mut dependencies));
}

#[test]
fn single_argument_without_attacks_is_not_refuted() {
    let instance = checked_instance(&["1 0 0"], &[], &["0"], Semantics::Admissible);
    let mut view = InstanceView::new(&instance);
    let mut dependencies = Vec::new();
    assert!(!rup_verify(None, &mut view, &mut dependencies));
    let instance = checked_instance(&["1 0 0"], &["1"], &["0"], Semantics::Admissible);
    let mut view = InstanceView::new(&instance);
    assert!(!rup_verify(None, &mut view, &mut dependencies));
    assert!(dependencies.is_empty());
}

#[test]
fn counter_attack_has_all_its_attackers_among_the_arguments() {
    let instance = checked_instance(&CHAIN, &[], &["0"], Semantics::Admissible);
    let view = InstanceView::new(&instance);
    let with = |arguments: &[usize]| arguments.iter().copied().collect::<HashSet<usize>>();
    assert!(contains_clause_witnesses(&with(&[1]), &vec![0], &view));
    assert!(!contains_clause_witnesses(&with(&[0]), &vec![0], &view));
    assert!(!contains_clause_witnesses(&with(&[0]), &vec![2], &view));
    assert!(!contains_clause_witnesses(&with(&[1]), &vec![2], &view));
    assert!(contains_clause_witnesses(&with(&[0, 1]), &vec![2], &view));
    assert!(contains_clause_witnesses(&with(&[2]), &vec![0, 1, 2], &view));
    assert!(!contains_clause_witnesses(&with(&[0]), &vec![0, 1, 2], &view));
    assert!(!contains_clause_witnesses(&with(&[]), &vec![0, 1, 2], &view));
    assert!(!contains_clause_witnesses(&with(&[1]), &vec![], &view));
    assert_eq!(collect_arguments(&vec![(2, true), (0, false), (2, false)]), with(&[0, 2]));
}

#[test]
fn attackers_are_the_members_behind_the_first() {
    let with = |arguments: &[usize]| arguments.iter().copied().collect::<HashSet<usize>>();
    let attack = vec![(2, false), (0, false), (1, false)];
    assert!(holds_attackers(&with(&[0, 1]), &attack));
    assert!(holds_attackers(&with(&[0, 1, 3]), &attack));
    assert!(!holds_attackers(&with(&[1, 2]), &attack));
    assert!(holds_attackers(&with(&[]), &vec![(2, false)]));
    assert!(holds_witness(&with(&[1]), &attack));
    assert!(holds_witness(&with(&[0, 3]), &attack));
    assert!(!holds_witness(&with(&[2, 3]), &attack));
    assert!(!holds_witness(&with(&[2]), &vec![(2, false)]));
}

#[test]
fn stability_asks_for_an_attacker_of_each_attack() {
    let instance = checked_instance(
        &CHAIN,
        &[],
        &["i 1 2 0", "i 1 3 0", "i 3 2 0", "i 3 0", "i 1 -2 0", "i -1 2 0", "0"],
        Semantics::Stable,
    );
    let view = InstanceView::new(&instance);
    assert_eq!(*view.get_verifier(3), VerifierType::Stability);
    assert!(stability_verify(3, &view));
    assert_eq!(used_clauses(&instance), vec![0]);
    assert!(!stability_verify(4, &view));
    assert!(stability_verify(5, &view));
    assert!(!stability_verify(6, &view));
    assert!(!stability_verify(7, &view));
    assert!(!stability_verify(8, &view));
    assert_eq!(used_clauses(&instance), vec![0, 2]);
}

#[test]
fn stability_holds_of_an_argument_without_attacks() {
    let instance =
        checked_instance(&["2 1 0", "1 2 0"], &[], &["i 2 0", "0"], Semantics::Stable);
    let view = InstanceView::new(&instance);
    assert!(stability_verify(1, &view));
    assert!(used_clauses(&instance).is_empty());
}

#[test]
fn admissibility_asks_for_an_answer_to_an_attack() {
    let instance = checked_instance(
        &CHAIN,
        &[],
        &["i -1 3 0", "i -1 2 0", "i 1 3 0", "i -3 1 0", "i -3 2 0", "0"],
        Semantics::Admissible,
    );
    let view = InstanceView::new(&instance);
    assert!(admissibility_verify(3, &view, None));
    assert_eq!(used_clauses(&instance), vec![0, 1]);
    assert!(!admissibility_verify(4, &view, None));
    assert!(!admissibility_verify(5, &view, None));
    assert!(!admissibility_verify(6, &view, None));
    assert_eq!(used_clauses(&instance), vec![0, 1]);
    assert!(admissibility_verify(7, &view, None));
    assert_eq!(used_clauses(&instance), vec![0, 1, 2]);
}

#[test]
fn admissibility_finds_the_first_answered_attack() {
    let instance = checked_instance(
        &["4 4 0", "1 2 0", "1 3 0", "2 4 0", "3 1 0"],
        &[],
        &["i -1 0", "0"],
        Semantics::Admissible,
    );
    let view = InstanceView::new(&instance);
    assert!(admissibility_verify(4, &view, None));
    assert_eq!(used_clauses(&instance), vec![1, 3]);
    assert!(!admissibility_verify(4, &view, Some(0)));
    assert!(admissibility_verify(4, &view, Some(1)));
    assert!(!admissibility_verify(4, &view, Some(2)));
    assert!(!admissibility_verify(4, &view, Some(4)));
    assert!(!admissibility_verify(4, &view, Some(40)));
    assert_eq!(used_clauses(&instance), vec![1, 3]);
}

#[test]
fn admissibility_needs_a_counter_attack_on_each_attacker() {
    let instance = checked_instance(
        &["4 3 0", "1 2 3 0", "2 4 0", "2 1 4 0"],
        &[],
        &["i -1 4 0", "i -1 0", "0"],
        Semantics::Admissible,
    );
    let view = InstanceView::new(&instance);
    assert!(!admissibility_verify(3, &view, None));
    assert!(!admissibility_verify(4, &view, None));
    assert!(used_clauses(&instance).is_empty());
    let instance = checked_instance(
        &["4 4 0", "1 2 3 0", "2 4 0", "2 1 4 0", "3 3 0"],
        &[],
        &["i -1 4 0", "i -1 0", "0"],
        Semantics::Admissible,
    );
    let view = InstanceView::new(&instance);
    assert!(admissibility_verify(4, &view, None));
    assert_eq!(used_clauses(&instance), vec![0, 1, 2, 3]);
    assert!(!admissibility_verify(5, &view, None));
}

#[test]
fn admissibility_for_one_attack() {
    let instance = checked_instance(&CHAIN, &[], &["0"], Semantics::Admissible);
    let view = InstanceView::new(&instance);
    let with = |arguments: &[usize]| arguments.iter().copied().collect::<HashSet<usize>>();
    assert!(admissibility_verify_for_attack(&with(&[2]), 0, &view));
    assert_eq!(used_clauses(&instance), vec![1]);
    assert!(!admissibility_verify_for_attack(&with(&[1]), 0, &view));
    assert!(!admissibility_verify_for_attack(&with(&[2]), 2, &view));
    assert!(admissibility_verify_for_attack(&with(&[1, 2]), 2, &view));
    assert_eq!(used_clauses(&instance), vec![0, 1]);
}

#[test]
fn worker_checks_a_clause_by_its_rule() {
    let instance = checked_instance(
        &CHAIN,
        &[],
        &["i -1 3 0", "i1 -2 1 0", "1 2 0", "i0 -2 1 0", "0"],
        Semantics::Admissible,
    );
    let mut view = InstanceView::new(&instance);
    let mut dependencies = Vec::new();
    assert!(Worker::do_work(Some(3), &mut view, &mut dependencies));
    assert!(Worker::do_work(Some(4), &mut view, &mut dependencies));
    assert!(dependencies.is_empty());
    assert!(Worker::do_work(Some(5), &mut view, &mut dependencies));
    assert!(!Worker::do_work(Some(6), &mut view, &mut dependencies));
    assert!(!Worker::do_work(None, &mut view, &mut dependencies));
    let instance =
        checked_instance(&CHAIN, &[], &["i 1 2 0", "i 1 3 0", "0"], Semantics::Stable);
    let mut view = InstanceView::new(&instance);
    assert!(Worker::do_work(Some(3), &mut view, &mut dependencies));
    assert!(!Worker::do_work(Some(4), &mut view, &mut dependencies));
}
