use setaf_verifier::instance_base::InstanceBase;
use setaf_verifier::parsers::error::{ParseError, ParseErrorKind};
use setaf_verifier::semantics::{Semantics, VerifierType};

fn parsing_lines(text: &[&str]) -> Vec<Vec<u8>> {
    text.iter().map(|line| line.as_bytes().to_vec()).collect()
}

fn parse(
    framework: &[&str],
    description: Option<&[&str]>,
    required: Option<&[&str]>,
    proof: &[&str],
    semantics: Semantics,
) -> Result<InstanceBase, ParseError> {
    InstanceBase::new(
        &parsing_lines(framework),
        &description.map(parsing_lines),
        &required.map(parsing_lines),
        &parsing_lines(proof),
        &semantics,
    )
}

fn fault_of(result: Result<InstanceBase, ParseError>) -> (ParseErrorKind, usize) {
    match result {
        Ok(_) => panic!("the input has no fault"),
        Err(error) => (error.kind, error.line),
    }
}

fn framework_fault(framework: &[&str]) -> (ParseErrorKind, usize) {
    fault_of(parse(framework, None, None, &["0"], Semantics::Admissible))
}

fn proof_fault(proof: &[&str], semantics: Semantics) -> (ParseErrorKind, usize) {
    fault_of(parse(&["3 1 0", "1 2 0"], None, None, proof, semantics))
}

fn members_of_clauses(instance: &InstanceBase) -> Vec<Vec<(usize, bool)>> {
    instance.clauses.iter().map(|clause| clause.get_members().clone()).collect()
}

#[test]
fn framework_is_read_into_arguments_and_attacks() {
    let instance = parse(
        &["# two attacks", "3 2 0", "1 2 3 0", "# in between", "2 3 0"],
        None,
        None,
        &["0"],
        Semantics::Admissible,
    )
    .unwrap();
    assert_eq!(instance.arguments.len(), 3);
    assert_eq!(instance.proof_start, 2);
    assert_eq!(
        members_of_clauses(&instance),
        vec![vec![(0, false), (1, false), (2, false)], vec![(1, false), (2, false)]]
    );
    assert_eq!(instance.arguments[0].get_id(), 0);
    assert_eq!(instance.arguments[2].get_id(), 2);
    assert_eq!(instance.arguments[0].get_attacked_by(), &vec![0]);
    assert_eq!(instance.arguments[1].get_attacked_by(), &vec![1]);
    assert!(instance.arguments[2].get_attacked_by().is_empty());
    assert!(instance.unit_clauses.is_empty());
    assert!(instance.required_arguments.is_empty());
    assert_eq!(instance.clauses[1].get_index(), 1);
    assert_eq!(instance.clauses[1].deleted_at(), None);
    assert!(!instance.clauses[0].is_used());
}

#[test]
fn repeated_argument_of_an_attack_counts_once() {
    let instance =
        parse(&["3 2 0", "1 2 3 2 3 0", "2 2 3 0"], None, None, &["0"], Semantics::Stable).unwrap();
    assert_eq!(
        members_of_clauses(&instance),
        vec![vec![(0, false), (1, false), (2, false)], vec![(1, false), (2, false)]]
    );
}

#[test]
fn attack_of_an_argument_on_itself_has_one_member() {
    let instance = parse(&["2 1 0", "2 2 0"], None, None, &["0"], Semantics::Stable).unwrap();
    assert_eq!(members_of_clauses(&instance), vec![vec![(1, false)]]);
    assert_eq!(instance.unit_clauses, vec![0]);
    assert_eq!(instance.arguments[1].get_attacked_by(), &vec![0]);
}

#[test]
fn attack_ends_at_its_first_zero() {
    let instance = parse(&["3 1 0", "1 2 0 3 0"], None, None, &["0"], Semantics::Stable).unwrap();
    assert_eq!(members_of_clauses(&instance), vec![vec![(0, false), (1, false)]]);
}

#[test]
fn framework_without_attacks() {
    let instance = parse(&["1 0 0"], None, None, &["0"], Semantics::Admissible).unwrap();
    assert_eq!(instance.arguments.len(), 1);
    assert!(instance.clauses.is_empty());
    assert_eq!(instance.proof_start, 0);
}

#[test]
fn preamble_faults() {
    assert_eq!(framework_fault(&[]), (ParseErrorKind::MissingPreamble, 0));
    assert_eq!(framework_fault(&["# only", "# comments"]), (ParseErrorKind::MissingPreamble, 2));
    assert_eq!(framework_fault(&["3 1"]), (ParseErrorKind::MalformedPreamble, 0));
    assert_eq!(framework_fault(&["3 1 1"]), (ParseErrorKind::MalformedPreamble, 0));
    assert_eq!(framework_fault(&["#", "3 1 0 0"]), (ParseErrorKind::MalformedPreamble, 1));
    assert_eq!(framework_fault(&["x 1 0"]), (ParseErrorKind::InvalidArgumentCount, 0));
    assert_eq!(framework_fault(&["3 -1 0"]), (ParseErrorKind::InvalidAttackCount, 0));
}

#[test]
fn attack_count_faults() {
    assert_eq!(framework_fault(&["3 1 0", "1 2 0", "2 3 0"]), (ParseErrorKind::TooManyAttacks, 2));
    assert_eq!(framework_fault(&["3 2 0", "1 2 0"]), (ParseErrorKind::TooFewAttacks, 2));
    assert_eq!(framework_fault(&["3 1 0"]), (ParseErrorKind::TooFewAttacks, 1));
    assert_eq!(framework_fault(&["3 0 0", "junk"]), (ParseErrorKind::TooManyAttacks, 1));
}

#[test]
fn attack_faults() {
    assert_eq!(framework_fault(&["3 1 0", "1 0"]), (ParseErrorKind::MalformedAttack, 1));
    assert_eq!(framework_fault(&["3 1 0", "1 2 3"]), (ParseErrorKind::MalformedAttack, 1));
    assert_eq!(framework_fault(&["3 1 0", "0 2 0"]), (ParseErrorKind::InvalidAttackedArgument, 1));
    assert_eq!(framework_fault(&["3 1 0", "4 2 0"]), (ParseErrorKind::InvalidAttackedArgument, 1));
    assert_eq!(framework_fault(&["3 1 0", "a 2 0"]), (ParseErrorKind::InvalidAttackedArgument, 1));
    assert_eq!(framework_fault(&["3 1 0", "1 b 0"]), (ParseErrorKind::InvalidAttackMember, 1));
    assert_eq!(framework_fault(&["3 1 0", "1  2 0"]), (ParseErrorKind::InvalidAttackMember, 1));
    assert_eq!(framework_fault(&["3 1 0", "1 4 0"]), (ParseErrorKind::UnknownAttackMember, 1));
}

#[test]
fn first_fault_of_the_framework_is_reported() {
    assert_eq!(
        framework_fault(&["3 2 0", "1 4 0", "1 0"]),
        (ParseErrorKind::UnknownAttackMember, 1)
    );
}

#[test]
fn required_arguments_by_number() {
    let instance = parse(
        &["3 1 0", "1 2 0"],
        None,
        Some(&["1", "# not this", "-3", "+2"]),
        &["0"],
        Semantics::Admissible,
    )
    .unwrap();
    assert_eq!(instance.required_arguments, vec![(0, true), (2, false), (1, true)]);
    assert!(instance.is_required_arguments_consistent());
}

#[test]
fn required_arguments_by_name() {
    let instance = parse(
        &["3 1 0", "1 2 0"],
        Some(&["1 first", "# a comment", "2 second", "3 the third one"]),
        Some(&["s first", "s -second trailing words"]),
        &["0"],
        Semantics::Admissible,
    )
    .unwrap();
    assert_eq!(instance.required_arguments, vec![(0, true), (1, false)]);
}

#[test]
fn required_argument_faults() {
    let framework: &[&str] = &["3 1 0", "1 2 0"];
    let description: &[&str] = &["1 a", "2 b", "3 a", "1 c d"];
    let required_fault = |required: &[&str]| {
        fault_of(parse(framework, Some(description), Some(required), &["0"], Semantics::Stable))
    };
    assert_eq!(required_fault(&["1", "0"]), (ParseErrorKind::InvalidRequiredArgument, 1));
    assert_eq!(required_fault(&["4"]), (ParseErrorKind::InvalidRequiredArgument, 0));
    assert_eq!(required_fault(&["--1"]), (ParseErrorKind::InvalidRequiredArgument, 0));
    assert_eq!(required_fault(&[""]), (ParseErrorKind::InvalidRequiredArgument, 0));
    assert_eq!(required_fault(&["t b"]), (ParseErrorKind::MalformedRequired, 0));
    assert_eq!(required_fault(&["1 2"]), (ParseErrorKind::MalformedRequired, 0));
    assert_eq!(required_fault(&["s a"]), (ParseErrorKind::AmbiguousArgumentName, 0));
    assert_eq!(required_fault(&["s b", "s x"]), (ParseErrorKind::UnknownArgumentName, 1));
    assert_eq!(required_fault(&["s c"]), (ParseErrorKind::UnknownArgumentName, 0));
}

#[test]
fn description_faults() {
    let described = |description: &[&str]| {
        fault_of(parse(&["3 1 0", "1 2 0"], Some(description), None, &["0"], Semantics::Stable))
    };
    assert_eq!(described(&["1"]), (ParseErrorKind::MalformedDescription, 0));
    assert_eq!(described(&["1 a", "x b"]), (ParseErrorKind::InvalidDescriptionArgument, 1));
    assert_eq!(described(&["0 a"]), (ParseErrorKind::InvalidDescriptionArgument, 0));
    assert_eq!(described(&["4 a"]), (ParseErrorKind::InvalidDescriptionArgument, 0));
}

#[test]
fn framework_fault_comes_before_any_other() {
    let result = parse(&["3 1 0"], Some(&["9 a"]), Some(&["9"]), &[], Semantics::Stable);
    assert_eq!(fault_of(result), (ParseErrorKind::TooFewAttacks, 1));
    let result = parse(&["3 1 0", "1 2 0"], Some(&["9 a"]), Some(&["9"]), &[], Semantics::Stable);
    assert_eq!(fault_of(result), (ParseErrorKind::InvalidDescriptionArgument, 0));
    let result = parse(&["3 1 0", "1 2 0"], Some(&["1 a"]), Some(&["9"]), &[], Semantics::Stable);
    assert_eq!(fault_of(result), (ParseErrorKind::InvalidRequiredArgument, 0));
    let result = parse(&["3 1 0", "1 2 0"], Some(&["1 a"]), Some(&["1"]), &[], Semantics::Stable);
    assert_eq!(fault_of(result), (ParseErrorKind::MissingEmptyClause, 0));
}

#[test]
fn required_arguments_with_both_signs_are_inconsistent() {
    let instance =
        parse(&["3 1 0", "1 2 0"], None, Some(&["1", "2", "-1"]), &["0"], Semantics::Stable)
            .unwrap();
    assert!(!instance.is_required_arguments_consistent());
    let instance =
        parse(&["3 1 0", "1 2 0"], None, Some(&["1", "-2", "1"]), &["0"], Semantics::Stable)
            .unwrap();
    assert!(instance.is_required_arguments_consistent());
}

#[test]
fn proof_clauses_follow_the_attacks() {
    let instance = parse(
        &["3 1 0", "1 2 0"],
        None,
        None,
        &["# proof", "2 -3 0", "i -1 3 0", "i1 -2 0", "-2 -2 2 0", "0"],
        Semantics::Admissible,
    )
    .unwrap();
    assert_eq!(instance.proof_start, 1);
    assert_eq!(
        members_of_clauses(&instance),
        vec![
            vec![(0, false), (1, false)],
            vec![(1, true), (2, false)],
            vec![(0, false), (2, true)],
            vec![(1, false)],
            vec![(1, false)],
        ]
    );
    assert_eq!(*instance.clauses[1].get_verifier(), VerifierType::RUP);
    assert_eq!(*instance.clauses[2].get_verifier(), VerifierType::Admissibility(None));
    assert_eq!(*instance.clauses[3].get_verifier(), VerifierType::Admissibility(Some(1)));
    assert_eq!(instance.unit_clauses, vec![3, 4]);
    assert_eq!(instance.clauses[4].get_index(), 4);
}

#[test]
fn stable_proof_clauses() {
    let instance =
        parse(&["3 1 0", "1 2 0"], None, None, &["i 1 2 0", "1 0", "0"], Semantics::Stable)
            .unwrap();
    assert_eq!(*instance.clauses[1].get_verifier(), VerifierType::Stability);
    assert_eq!(*instance.clauses[2].get_verifier(), VerifierType::RUP);
    assert_eq!(instance.unit_clauses, vec![2]);
}

#[test]
fn deletion_takes_the_earliest_clause_not_yet_deleted() {
    let instance = parse(
        &["3 1 0", "1 2 0"],
        None,
        None,
        &["1 2 0", "3 0", "2 1 0", "d 1 2 0", "1 2 0", "d 2 1 0", "d 1 2 0", "0"],
        Semantics::Stable,
    )
    .unwrap();
    assert_eq!(instance.clauses.len(), 5);
    assert_eq!(instance.clauses[0].deleted_at(), None);
    assert_eq!(instance.clauses[1].deleted_at(), Some(4));
    assert_eq!(instance.clauses[2].deleted_at(), None);
    assert_eq!(instance.clauses[3].deleted_at(), Some(5));
    assert_eq!(instance.clauses[4].deleted_at(), Some(5));
}

#[test]
fn deletion_tells_apart_clauses_that_are_listed_together() {
    let instance = parse(
        &["4 1 0", "1 2 0"],
        None,
        None,
        &["1 2 0", "2 0", "-1 -2 0", "1 2 3 4 0", "4 0", "d 2 0", "d 4 0", "d 2 1 0", "0"],
        Semantics::Stable,
    )
    .unwrap();
    assert_eq!(instance.clauses[1].deleted_at(), Some(6));
    assert_eq!(instance.clauses[2].deleted_at(), Some(6));
    assert_eq!(instance.clauses[3].deleted_at(), None);
    assert_eq!(instance.clauses[4].deleted_at(), None);
    assert_eq!(instance.clauses[5].deleted_at(), Some(6));
    assert_eq!(
        fault_of(parse(
            &["4 1 0", "1 2 0"],
            None,
            None,
            &["1 2 0", "d 2 0", "0"],
            Semantics::Stable,
        )),
        (ParseErrorKind::UnknownDeletion, 1)
    );
}

#[test]
fn deletion_matches_literals_with_their_signs() {
    assert_eq!(
        proof_fault(&["1 -2 0", "d 1 2 0", "0"], Semantics::Stable),
        (ParseErrorKind::UnknownDeletion, 1)
    );
    assert_eq!(
        proof_fault(&["1 2 0", "d 1 0", "0"], Semantics::Stable),
        (ParseErrorKind::UnknownDeletion, 1)
    );
    assert_eq!(
        proof_fault(&["1 2 0", "d 1 2 3 0", "0"], Semantics::Stable),
        (ParseErrorKind::UnknownDeletion, 1)
    );
}

#[test]
fn deletion_does_not_reach_the_attacks() {
    assert_eq!(
        proof_fault(&["d -1 -2 0", "0"], Semantics::Stable),
        (ParseErrorKind::UnknownDeletion, 0)
    );
}

#[test]
fn deletion_faults() {
    assert_eq!(
        proof_fault(&["1 2 0", "d 1 2 0", "d 2 1 0", "0"], Semantics::Stable),
        (ParseErrorKind::AlreadyDeleted, 2)
    );
    assert_eq!(proof_fault(&["d 0", "0"], Semantics::Stable), (ParseErrorKind::EmptyDeletion, 0));
    assert_eq!(proof_fault(&["d", "0"], Semantics::Stable), (ParseErrorKind::MalformedProofLine, 0));
    assert_eq!(
        proof_fault(&["1 0", "d1 0", "0"], Semantics::Stable),
        (ParseErrorKind::InvalidLiteral, 1)
    );
    assert_eq!(
        proof_fault(&["d 1 2", "0"], Semantics::Stable),
        (ParseErrorKind::MalformedProofLine, 0)
    );
}

#[test]
fn proof_line_faults() {
    assert_eq!(proof_fault(&["1 2"], Semantics::Stable), (ParseErrorKind::MalformedProofLine, 0));
    assert_eq!(proof_fault(&[""], Semantics::Stable), (ParseErrorKind::MalformedProofLine, 0));
    assert_eq!(proof_fault(&["1 x 0"], Semantics::Stable), (ParseErrorKind::InvalidLiteral, 0));
    assert_eq!(proof_fault(&["1  2 0"], Semantics::Stable), (ParseErrorKind::InvalidLiteral, 0));
    assert_eq!(proof_fault(&["1 4 0"], Semantics::Stable), (ParseErrorKind::UnknownLiteral, 0));
    assert_eq!(proof_fault(&["1 -4 0"], Semantics::Stable), (ParseErrorKind::UnknownLiteral, 0));
    assert_eq!(proof_fault(&["1 0 2 0"], Semantics::Stable), (ParseErrorKind::UnknownLiteral, 0));
    assert_eq!(proof_fault(&["i5 1 0"], Semantics::Stable), (ParseErrorKind::InvalidLiteral, 0));
    assert_eq!(proof_fault(&["i5"], Semantics::Admissible), (ParseErrorKind::MalformedClause, 0));
    assert_eq!(
        proof_fault(&["1 0", "ix 1 0"], Semantics::Admissible),
        (ParseErrorKind::MalformedClause, 1)
    );
}

#[test]
fn proof_must_end_with_the_empty_clause() {
    assert_eq!(proof_fault(&[], Semantics::Stable), (ParseErrorKind::MissingEmptyClause, 0));
    assert_eq!(
        proof_fault(&["1 0", "# done"], Semantics::Stable),
        (ParseErrorKind::MissingEmptyClause, 2)
    );
    assert_eq!(
        proof_fault(&["1 0", "0", "# fine", "2 0"], Semantics::Stable),
        (ParseErrorKind::MissingEmptyClause, 3)
    );
    assert_eq!(
        proof_fault(&["0", "0"], Semantics::Stable),
        (ParseErrorKind::MissingEmptyClause, 1)
    );
    let instance = parse(
        &["3 1 0", "1 2 0"],
        None,
        None,
        &["1 0", "i 0", "# the end", "#"],
        Semantics::Stable,
    )
    .unwrap();
    assert_eq!(instance.clauses.len(), 2);
}
