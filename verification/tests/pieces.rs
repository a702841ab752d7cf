use setaf_verifier::argument_base::ArgumentBase;
use setaf_verifier::clause_base::ClauseBase;
use setaf_verifier::clause_view::ClauseView;
use setaf_verifier::instance_base::{skip_comments, store_clause, InstanceBase};
use setaf_verifier::instance_view::InstanceView;
use setaf_verifier::parsers::clause_index::clause_key;
use setaf_verifier::parsers::error::ParseErrorKind;
use setaf_verifier::parsers::framework::{copy_range, find_name, range_equals, read_attack};
use setaf_verifier::parsers::framework::{read_description, read_preamble};
use setaf_verifier::parsers::members::{add_member_once, clear_marks, new_marks};
use setaf_verifier::parsers::required::read_required;
use setaf_verifier::propagation::WatchUpdateResult;
use setaf_verifier::semantics::{Semantics, VerifierType};

fn piece_lines(text: &[&str]) -> Vec<Vec<u8>> {
    text.iter().map(|line| line.as_bytes().to_vec()).collect()
}

fn piece(text: &str) -> Vec<u8> {
    text.as_bytes().to_vec()
}

fn members_of_all(clauses: &Vec<ClauseBase>) -> Vec<Vec<(usize, bool)>> {
    clauses.iter().map(|clause| clause.get_members().clone()).collect()
}

#[test]
fn argument_base_keeps_what_it_is_given() {
    let mut argument = ArgumentBase::new();
    assert_eq!(argument.get_id(), 0);
    assert!(argument.get_attacked_by().is_empty());
    argument.set_id(5);
    argument.add_attacked_by(2);
    argument.add_attacked_by(7);
    assert_eq!(argument.get_id(), 5);
    assert_eq!(argument.get_attacked_by(), &vec![2, 7]);
}

#[test]
fn clause_base_has_the_rule_that_it_is_given() {
    let mut clause = ClauseBase::new(3);
    clause.set_verifier(VerifierType::Admissibility(Some(4)));
    assert_eq!(*clause.get_verifier(), VerifierType::Admissibility(Some(4)));
    clause.set_verifier(VerifierType::RUP);
    assert_eq!(*clause.get_verifier(), VerifierType::RUP);
}

#[test]
fn marks_keep_the_first_literal_of_an_argument() {
    let mut marks = new_marks(4);
    assert_eq!(marks, vec![0, 0, 0, 0]);
    let mut clause = ClauseBase::new(0);
    add_member_once(&mut clause, &mut marks, 2, true);
    add_member_once(&mut clause, &mut marks, 0, false);
    add_member_once(&mut clause, &mut marks, 2, false);
    add_member_once(&mut clause, &mut marks, 0, false);
    assert_eq!(clause.get_members(), &vec![(2, true), (0, false)]);
    assert_eq!(marks, vec![1, 0, 2, 0]);
    clear_marks(&clause, &mut marks);
    assert_eq!(marks, vec![0, 0, 0, 0]);
}

#[test]
fn key_of_a_clause_does_not_depend_on_the_order() {
    let mut first = ClauseBase::new(0);
    first.add_member(3, true);
    first.add_member(1, false);
    first.add_member(7, true);
    let mut second = ClauseBase::new(1);
    second.add_member(7, true);
    second.add_member(3, true);
    second.add_member(1, false);
    assert_eq!(clause_key(&first), clause_key(&second));
    assert_eq!(clause_key(&first), 3 ^ !1u64 ^ 7);
    assert_eq!(clause_key(&ClauseBase::new(2)), 0);
    let mut other = ClauseBase::new(3);
    other.add_member(3, true);
    other.add_member(1, true);
    other.add_member(7, true);
    assert_ne!(clause_key(&first), clause_key(&other));
}

#[test]
fn attack_line_is_read_into_a_clause() {
    let mut marks = new_marks(5);
    let clause = read_attack(&piece("2 5 3 5 0"), 9, 5, &mut marks).unwrap();
    assert_eq!(clause.get_index(), 9);
    assert_eq!(clause.get_members(), &vec![(1, false), (4, false), (2, false)]);
    assert_eq!(marks, vec![0, 0, 0, 0, 0]);
    assert_eq!(
        read_attack(&piece("2 6 0"), 0, 5, &mut marks).err(),
        Some(ParseErrorKind::UnknownAttackMember)
    );
}

#[test]
fn preamble_gives_the_two_counts() {
    assert_eq!(read_preamble(&piece("12 7 0")), Ok((12, 7)));
    assert_eq!(read_preamble(&piece("+1 0 0")), Ok((1, 0)));
    assert_eq!(read_preamble(&piece("12 7")), Err(ParseErrorKind::MalformedPreamble));
    assert_eq!(read_preamble(&piece("12  0")), Err(ParseErrorKind::InvalidAttackCount));
}

#[test]
fn description_line_gives_where_the_name_starts() {
    assert_eq!(read_description(&piece("3 a name"), 3), Ok((2, 2)));
    assert_eq!(read_description(&piece("12 n"), 12), Ok((3, 11)));
    assert_eq!(read_description(&piece("1 "), 3), Ok((2, 0)));
    assert_eq!(read_description(&piece("4 a"), 3), Err(ParseErrorKind::InvalidDescriptionArgument));
}

#[test]
fn names_are_found_by_their_text() {
    let names = vec![(piece("one"), Some(0)), (piece("two"), None), (piece("one more"), Some(2))];
    let line = piece("s one more");
    assert_eq!(find_name(&names, &line, 2, 5), 0);
    assert_eq!(find_name(&names, &line, 2, 10), 2);
    assert_eq!(find_name(&names, &line, 6, 10), 3);
    assert_eq!(find_name(&names, &piece("two"), 0, 3), 1);
    assert!(range_equals(&piece("one"), &line, 2, 5));
    assert!(!range_equals(&piece("one"), &line, 2, 6));
    assert!(!range_equals(&piece("ond"), &line, 2, 5));
    assert_eq!(copy_range(&line, 2, 5), piece("one"));
    assert_eq!(copy_range(&line, 4, 4), piece(""));
}

#[test]
fn required_line_names_an_argument_and_its_sign() {
    let names = vec![(piece("a"), Some(2)), (piece("b"), None)];
    assert_eq!(read_required(&piece("3"), 3, &names), Ok((2, true)));
    assert_eq!(read_required(&piece("-1"), 3, &names), Ok((0, false)));
    assert_eq!(read_required(&piece("s a"), 3, &names), Ok((2, true)));
    assert_eq!(read_required(&piece("s -a"), 3, &names), Ok((2, false)));
    assert_eq!(read_required(&piece("s b"), 3, &names), Err(ParseErrorKind::AmbiguousArgumentName));
    assert_eq!(read_required(&piece("s "), 3, &names), Err(ParseErrorKind::UnknownArgumentName));
}

#[test]
fn comments_are_skipped() {
    let lines = piece_lines(&["#", "# again", "1 0 0", "#"]);
    assert_eq!(skip_comments(&lines, 0), 2);
    assert_eq!(skip_comments(&lines, 2), 2);
    assert_eq!(skip_comments(&lines, 3), 4);
    assert_eq!(skip_comments(&lines, 4), 4);
}

#[test]
fn clauses_of_one_member_are_listed() {
    let mut clauses = Vec::new();
    let mut units = Vec::new();
    let mut first = ClauseBase::new(0);
    first.add_member(1, true);
    first.add_member(2, true);
    let mut second = ClauseBase::new(1);
    second.add_member(1, false);
    store_clause(&mut clauses, &mut units, first);
    store_clause(&mut clauses, &mut units, second);
    assert_eq!(members_of_all(&clauses), vec![vec![(1, true), (2, true)], vec![(1, false)]]);
    assert_eq!(units, vec![1]);
}

#[test]
fn framework_and_description_are_read_together() {
    let (arguments, clauses, names, units) = InstanceBase::parse_framework(
        &piece_lines(&["2 2 0", "1 2 0", "2 2 0"]),
        &Some(piece_lines(&["1 a", "2 a", "2 b c"])),
    )
    .unwrap();
    assert_eq!(arguments.len(), 2);
    assert_eq!(members_of_all(&clauses), vec![vec![(0, false), (1, false)], vec![(1, false)]]);
    assert_eq!(names, vec![(piece("a"), None), (piece("b c"), Some(1))]);
    assert_eq!(units, vec![1]);
    assert_eq!(arguments[1].get_attacked_by(), &vec![1]);
}

#[test]
fn required_arguments_are_read_in_their_order() {
    let names = vec![(piece("a"), Some(1))];
    let required = InstanceBase::parse_required(&piece_lines(&["-2", "# no", "s a", "1"]), 2, &names);
    assert_eq!(required.unwrap(), vec![(1, false), (1, true), (0, true)]);
    let fault = InstanceBase::parse_required(&piece_lines(&["1", "3"]), 2, &names).unwrap_err();
    assert_eq!((fault.kind, fault.line), (ParseErrorKind::InvalidRequiredArgument, 1));
}

#[test]
fn proof_clause_is_read_from_where_it_starts() {
    let mut marks = new_marks(3);
    let clause =
        InstanceBase::parse_proof_clause(6, &piece("i12 -3 1 -3 0"), 4, &mut marks, 3).unwrap();
    assert_eq!(clause.get_index(), 6);
    assert_eq!(clause.get_members(), &vec![(2, false), (0, true)]);
    assert_eq!(marks, vec![2, 0, 1]);
    clear_marks(&clause, &mut marks);
    let empty = InstanceBase::parse_proof_clause(7, &piece("i 0"), 2, &mut marks, 3).unwrap();
    assert_eq!(empty.get_number_of_members(), 0);
    assert_eq!(
        InstanceBase::parse_proof_clause(7, &piece("1 2"), 0, &mut marks, 3).err(),
        Some(ParseErrorKind::MalformedProofLine)
    );
}

#[test]
fn proof_is_read_behind_the_attacks() {
    let (arguments, mut clauses, _, mut units) =
        InstanceBase::parse_framework(&piece_lines(&["2 1 0", "1 2 0"]), &None).unwrap();
    let fault = InstanceBase::parse_proof(
        &piece_lines(&["1 0", "i 1 2 0", "d 1 0", "0"]),
        &Semantics::Stable,
        &arguments,
        &mut clauses,
        &mut units,
    );
    assert_eq!(fault, None);
    assert_eq!(
        members_of_all(&clauses),
        vec![vec![(0, false), (1, false)], vec![(0, true)], vec![(0, true), (1, true)]]
    );
    assert_eq!(units, vec![1]);
    assert_eq!(clauses[1].deleted_at(), Some(3));
    assert_eq!(*clauses[2].get_verifier(), VerifierType::Stability);
    let fault = InstanceBase::parse_proof(
        &piece_lines(&["d 1 0", "0"]),
        &Semantics::Stable,
        &arguments,
        &mut clauses,
        &mut units,
    )
    .unwrap();
    assert_eq!((fault.kind, fault.line), (ParseErrorKind::UnknownDeletion, 0));
}

#[test]
fn clause_view_watches_its_first_two_members() {
    let instance = InstanceBase::new(
        &piece_lines(&["3 1 0", "1 2 3 0"]),
        &None,
        &None,
        &piece_lines(&["-3 0", "0"]),
        &Semantics::Stable,
    )
    .unwrap();
    let mut view = InstanceView::new(&instance);
    view.reset();
    let mut clause = ClauseView::new(&instance.clauses[0], &mut view);
    assert_eq!(clause.get_members(), &vec![(0, false), (1, false), (2, false)]);
    assert_eq!(clause.deleted_at(), None);
    assert_eq!(clause.check_propagation(&view), (None, None, None));
    view.set_argument_value(1, true);
    assert_eq!(
        clause.check_propagation(&view),
        (None, None, Some((2, (1, false), (2, false))))
    );
    assert!(matches!(
        clause.update_watch(&view, 1, 1, false, 0),
        WatchUpdateResult::Success((2, (1, false), (2, false)))
    ));
    clause.set_watch(1, 2);
    assert_eq!(clause.check_propagation(&view), (None, None, None));
    view.set_argument_value(0, true);
    assert_eq!(
        clause.check_propagation(&view),
        (Some((2, false)), None, None)
    );
    assert!(matches!(clause.update_watch(&view, 0, 0, false, 2), WatchUpdateResult::Failed));
    view.set_argument_value(2, false);
    assert!(matches!(
        clause.update_watch(&view, 0, 0, false, 1),
        WatchUpdateResult::AlreadySatisfied
    ));
    clause.set_watch(0, 1);
    assert_eq!(clause.check_propagation(&view), (None, None, None));
    let unit = ClauseView::new(&instance.clauses[1], &mut view);
    assert_eq!(*unit.get_verifier(), VerifierType::RUP);
    assert_eq!(unit.check_propagation(&view), (Some((2, false)), None, None));
}
