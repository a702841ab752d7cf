//! The instance to check: the framework, the required arguments and the
//! proof.

use crate::argument_base::ArgumentBase;
use crate::clause_base::{arguments_below, distinct_arguments};
use crate::clause_base::{ClauseBase, ClauseModel};
use crate::parsers::clause_index::{indexed, record_clause};
use crate::parsers::error::{fault, ParseError, ParseErrorKind};
use crate::parsers::framework::{attack_shaped, attacks_from, first_content};
use crate::parsers::framework::{copy_range, find_name, read_attack, read_description};
use crate::parsers::framework::{names_from, names_model, names_of};
use crate::parsers::framework::{framework_of, is_new_clause, read_preamble};
use crate::parsers::framework::names_below;
use crate::parsers::members::{add_member_once, clear_marks, new_marks};
use crate::parsers::members::{lemma_unmarked_matches_empty, lemma_with_member_distinct};
use crate::parsers::members::{marks_match, unmarked};
use crate::parsers::proof_text::{clause_of, clause_shaped, delete_clause, literals_from};
use crate::parsers::proof_text::models_of;
use crate::parsers::proof_text::{proof_clause, proof_clauses_stored, proof_from, DELETION_MARK};
use crate::parsers::required::{read_required, required_from, requirements_of};
use crate::semantics::Semantics;
use crate::text::{range_text, ranges_text, ranges_within, split};
use crate::text::{is_comment_line, is_zero_token, read_signed, split_line};
use std::collections::HashMap;
use vstd::prelude::*;

verus! {

/// What a list of lines stands for.
pub open spec fn lines_model(lines: Seq<Vec<u8>>) -> Seq<Seq<u8>> {
    Seq::new(lines.len(), |i: int| lines[i]@)
}

/// What an optional list of lines stands for.
pub open spec fn optional_lines_model(lines: Option<Vec<Vec<u8>>>) -> Option<Seq<Seq<u8>>> {
    match lines {
        Some(lines) => Some(lines_model(lines@)),
        None => None,
    }
}

/// The members of each clause.
pub open spec fn members_of(clauses: Seq<ClauseBase>) -> Seq<Seq<(usize, bool)>> {
    Seq::new(clauses.len(), |i: int| clauses[i].spec_members())
}

/// The argument that the clause has first.
pub open spec fn target_of(clause: ClauseBase) -> usize {
    clause.spec_members()[0].0
}

/// The list holds, in ascending order, those of the first `count` clauses
/// that have the argument first.
pub open spec fn lists_attacks_on(
    list: Seq<usize>,
    clauses: Seq<ClauseBase>,
    count: int,
    argument: int,
) -> bool {
    &&& forall|k: int|
        0 <= k < list.len() ==> (#[trigger] list[k]) < count && target_of(clauses[list[k] as int])
            == argument
    &&& forall|j: int, k: int|
        0 <= j < k < list.len() ==> (#[trigger] list[j]) < (#[trigger] list[k])
    &&& forall|i: int|
        0 <= i < count && target_of(#[trigger] clauses[i]) == argument ==> list.contains(i as usize)
}

/// The list holds, in ascending order, the clauses with one member.
pub open spec fn lists_units(list: Seq<usize>, clauses: Seq<ClauseBase>) -> bool {
    &&& forall|k: int|
        0 <= k < list.len() ==> (#[trigger] list[k]) < clauses.len()
            && clauses[list[k] as int].spec_members().len() == 1
    &&& forall|j: int, k: int|
        0 <= j < k < list.len() ==> (#[trigger] list[j]) < (#[trigger] list[k])
    &&& forall|i: int|
        0 <= i < clauses.len() && (#[trigger] clauses[i]).spec_members().len() == 1
            ==> list.contains(i as usize)
}

/// Each argument bears its index and lists the attacks on it.
pub open spec fn arguments_indexed(
    arguments: Seq<ArgumentBase>,
    clauses: Seq<ClauseBase>,
    count: int,
) -> bool {
    forall|a: int|
        0 <= a < arguments.len() ==> (#[trigger] arguments[a]).spec_id() == a && lists_attacks_on(
            arguments[a].spec_attacked_by(),
            clauses,
            count,
            a,
        )
}

/// The clauses are the attacks of a framework over the given number of
/// arguments, each under its index.
pub open spec fn attacks_stored(clauses: Seq<ClauseBase>, number_of_arguments: usize) -> bool {
    forall|i: int|
        0 <= i < clauses.len() ==> is_new_clause(#[trigger] clauses[i], i, clauses[i].spec_members())
            && attack_shaped(clauses[i].spec_members(), number_of_arguments)
}

/// The instance: the framework, the required arguments and the proof.
pub struct InstanceBase {
    /// The arguments of the framework.
    pub arguments: Vec<ArgumentBase>,
    /// The arguments that are required, each with its sign.
    pub required_arguments: Vec<(usize, bool)>,
    /// The attacks of the framework, then the clauses of the proof.
    pub clauses: Vec<ClauseBase>,
    /// The indices of the clauses with one member.
    pub unit_clauses: Vec<usize>,
    /// The index of the first clause of the proof.
    pub proof_start: usize,
}

/// The list of clauses with one member stays right where the members of the
/// clauses stay as they are.
pub proof fn lemma_units_carry_over(
    list: Seq<usize>,
    before: Seq<ClauseBase>,
    after: Seq<ClauseBase>,
)
    requires
        lists_units(list, before),
        before.len() == after.len(),
        forall|i: int|
            0 <= i < before.len() ==> (#[trigger] after[i]).spec_members()
                == before[i].spec_members(),
    ensures
        lists_units(list, after),
{
    assert forall|k: int| 0 <= k < list.len() implies (#[trigger] list[k]) < after.len()
        && after[list[k] as int].spec_members().len() == 1 by {
        assert(after[list[k] as int].spec_members() == before[list[k] as int].spec_members());
    }
    assert forall|i: int|
        0 <= i < after.len() && (#[trigger] after[i]).spec_members().len() == 1 implies list.contains(
        i as usize,
    ) by {
        assert(before[i].spec_members().len() == 1);
    }
}

/// Stores a clause behind the clauses read so far.
pub fn store_clause(clauses: &mut Vec<ClauseBase>, unit_clauses: &mut Vec<usize>, clause: ClauseBase)
    requires
        lists_units(old(unit_clauses)@, old(clauses)@),
    ensures
        final(clauses)@ == old(clauses)@.push(clause),
        lists_units(final(unit_clauses)@, final(clauses)@),
{
    let index = clauses.len();
    let unit = clause.get_number_of_members() == 1;
    let ghost clauses_before = clauses@;
    let ghost units_before = unit_clauses@;
    clauses.push(clause);
    if unit {
        unit_clauses.push(index);
    }
    proof {
        let after = clauses@;
        let units = unit_clauses@;
        assert forall|k: int| 0 <= k < units.len() implies (#[trigger] units[k]) < after.len()
            && after[units[k] as int].spec_members().len() == 1 by {
            if k < units_before.len() {
                assert(units[k] == units_before[k]);
                assert(after[units[k] as int] == clauses_before[units[k] as int]);
            }
        }
        assert forall|j: int, k: int| 0 <= j < k < units.len() implies (#[trigger] units[j]) < (
        #[trigger] units[k]) by {
            assert(units[j] == units_before[j]);
            if k < units_before.len() {
                assert(units[k] == units_before[k]);
            }
        }
        assert forall|i: int|
            0 <= i < after.len() && (#[trigger] after[i]).spec_members().len()
                == 1 implies units.contains(i as usize) by {
            if i < clauses_before.len() {
                assert(after[i] == clauses_before[i]);
                assert(units_before.contains(i as usize));
                let k = choose|k: int| 0 <= k < units_before.len() && units_before[k] == i as usize;
                assert(units[k] == i as usize);
            } else {
                assert(units[units_before.len() as int] == index);
            }
        }
    }
}

/// Stores an attack behind the attacks read so far.
pub fn store_attack(
    arguments: &mut Vec<ArgumentBase>,
    clauses: &mut Vec<ClauseBase>,
    unit_clauses: &mut Vec<usize>,
    clause: ClauseBase,
)
    requires
        old(clauses)@.len() < usize::MAX,
        attacks_stored(old(clauses)@, old(arguments)@.len() as usize),
        arguments_indexed(old(arguments)@, old(clauses)@, old(clauses)@.len() as int),
        lists_units(old(unit_clauses)@, old(clauses)@),
        is_new_clause(clause, old(clauses)@.len() as int, clause.spec_members()),
        attack_shaped(clause.spec_members(), old(arguments)@.len() as usize),
    ensures
        final(arguments)@.len() == old(arguments)@.len(),
        final(clauses)@ == old(clauses)@.push(clause),
        attacks_stored(final(clauses)@, final(arguments)@.len() as usize),
        arguments_indexed(final(arguments)@, final(clauses)@, final(clauses)@.len() as int),
        lists_units(final(unit_clauses)@, final(clauses)@),
{
    let index = clauses.len();
    let (attacked, _) = clause.get_member(0);
    let unit = clause.get_number_of_members() == 1;
    let ghost arguments_before = arguments@;
    let ghost clauses_before = clauses@;
    let ghost units_before = unit_clauses@;
    clauses.push(clause);
    arguments[attacked].add_attacked_by(index);
    if unit {
        unit_clauses.push(index);
    }
    proof {
        let after = clauses@;
        assert forall|i: int| 0 <= i < clauses_before.len() implies #[trigger] after[i]
            == clauses_before[i] by {}
        assert forall|a: int| 0 <= a < arguments@.len() implies (#[trigger] arguments@[a]).spec_id()
            == a && lists_attacks_on(
            arguments@[a].spec_attacked_by(),
            after,
            after.len() as int,
            a,
        ) by {
            let before = arguments_before[a].spec_attacked_by();
            let list = arguments@[a].spec_attacked_by();
            assert(lists_attacks_on(before, clauses_before, clauses_before.len() as int, a));
            if a == attacked {
                assert(list == before.push(index));
                assert forall|k: int| 0 <= k < list.len() implies (#[trigger] list[k]) < after.len()
                    && target_of(after[list[k] as int]) == a by {
                    if k < before.len() {
                        assert(list[k] == before[k]);
                    }
                }
                assert forall|j: int, k: int| 0 <= j < k < list.len() implies (#[trigger] list[j])
                    < (#[trigger] list[k]) by {
                    assert(list[j] == before[j]);
                    if k < before.len() {
                        assert(list[k] == before[k]);
                    }
                }
                assert forall|i: int|
                    0 <= i < after.len() && target_of(#[trigger] after[i]) == a implies list.contains(
                    i as usize,
                ) by {
                    if i < clauses_before.len() {
                        assert(target_of(clauses_before[i]) == a);
                        assert(before.contains(i as usize));
                        let k = choose|k: int| 0 <= k < before.len() && before[k] == i as usize;
                        assert(list[k] == i as usize);
                    } else {
                        assert(list[before.len() as int] == index);
                    }
                }
            } else {
                assert(arguments@[a] == arguments_before[a]);
                assert forall|i: int|
                    0 <= i < after.len() && target_of(#[trigger] after[i]) == a implies list.contains(
                    i as usize,
                ) by {
                    assert(i < clauses_before.len());
                    assert(target_of(clauses_before[i]) == a);
                }
            }
        }
        let units = unit_clauses@;
        assert(lists_units(units, after)) by {
            assert forall|k: int| 0 <= k < units.len() implies (#[trigger] units[k]) < after.len()
                && after[units[k] as int].spec_members().len() == 1 by {
                if k < units_before.len() {
                    assert(units[k] == units_before[k]);
                }
            }
            assert forall|j: int, k: int| 0 <= j < k < units.len() implies (#[trigger] units[j]) < (
            #[trigger] units[k]) by {
                assert(units[j] == units_before[j]);
                if k < units_before.len() {
                    assert(units[k] == units_before[k]);
                }
            }
            assert forall|i: int|
                0 <= i < after.len() && (#[trigger] after[i]).spec_members().len()
                    == 1 implies units.contains(i as usize) by {
                if i < clauses_before.len() {
                    assert(clauses_before[i].spec_members().len() == 1);
                    assert(units_before.contains(i as usize));
                    let k = choose|k: int|
                        0 <= k < units_before.len() && units_before[k] == i as usize;
                    assert(units[k] == i as usize);
                } else {
                    assert(units[units_before.len() as int] == index);
                }
            }
        }
    }
}

/// Returns the index of the first line at or behind `from` that is no
/// comment, or the number of lines where there is none.
pub fn skip_comments(lines: &Vec<Vec<u8>>, from: usize) -> (position: usize)
    requires
        from <= lines@.len(),
    ensures
        from <= position <= lines@.len(),
        position == first_content(lines_model(lines@), from as int),
{
    let mut position: usize = from;
    while position < lines.len() && is_comment_line(&lines[position])
        invariant
            from <= position <= lines@.len(),
            first_content(lines_model(lines@), from as int) == first_content(
                lines_model(lines@),
                position as int,
            ),
        decreases lines@.len() - position,
    {
        position += 1;
    }
    position
}

/// The first `proof_start` clauses are the attacks of a framework over the
/// given number of arguments, each under its index.
pub open spec fn framework_stored(
    clauses: Seq<ClauseBase>,
    proof_start: int,
    number_of_arguments: usize,
) -> bool {
    forall|i: int|
        0 <= i < proof_start ==> is_new_clause(#[trigger] clauses[i], i, clauses[i].spec_members())
            && attack_shaped(clauses[i].spec_members(), number_of_arguments)
}

/// No argument is required with both signs.
pub open spec fn consistent(required: Seq<(usize, bool)>) -> bool {
    forall|i: int, j: int|
        0 <= i < j < required.len() && (#[trigger] required[i]).0 == (#[trigger] required[j]).0
            ==> required[i].1 == required[j].1
}

/// What an instance holds.
pub struct InstanceModel {
    pub number_of_arguments: usize,
    pub required: Seq<(usize, bool)>,
    pub clauses: Seq<ClauseModel>,
    pub proof_start: usize,
}

/// The attacks of a framework as clauses: without rule, not deleted.
pub open spec fn attack_models(attacks: Seq<Seq<(usize, bool)>>) -> Seq<ClauseModel> {
    Seq::new(
        attacks.len(),
        |i: int| ClauseModel { members: attacks[i], verifier: None, deleted_at: None },
    )
}

/// The instance that the four texts describe under the given semantics. The
/// first fault decides, in the order framework, description, required
/// arguments, proof.
pub open spec fn instance_of(
    framework: Seq<Seq<u8>>,
    description: Option<Seq<Seq<u8>>>,
    required: Option<Seq<Seq<u8>>>,
    proof_lines: Seq<Seq<u8>>,
    semantics: Semantics,
) -> Result<InstanceModel, ParseError> {
    match framework_of(framework) {
        Err(error) => Err(error),
        Ok(model) => match names_of(description, model.number_of_arguments) {
            Err(error) => Err(error),
            Ok(names) => match requirements_of(required, model.number_of_arguments, names) {
                Err(error) => Err(error),
                Ok(literals) => match proof_from(
                    proof_lines,
                    0,
                    semantics,
                    model.number_of_arguments,
                    model.attacks.len() as int,
                    attack_models(model.attacks),
                ) {
                    Err(error) => Err(error),
                    Ok(clauses) => Ok(
                        InstanceModel {
                            number_of_arguments: model.number_of_arguments,
                            required: literals,
                            clauses,
                            proof_start: model.attacks.len() as usize,
                        },
                    ),
                },
            },
        },
    }
}

/// The arguments list their attacks still, where the attacks stay as they
/// are.
pub proof fn lemma_arguments_carry_over(
    arguments: Seq<ArgumentBase>,
    before: Seq<ClauseBase>,
    after: Seq<ClauseBase>,
    count: int,
)
    requires
        arguments_indexed(arguments, before, count),
        count <= before.len() <= after.len(),
        forall|i: int| 0 <= i < count ==> #[trigger] after[i] == before[i],
    ensures
        arguments_indexed(arguments, after, count),
{
    assert forall|a: int| 0 <= a < arguments.len() implies (#[trigger] arguments[a]).spec_id() == a
        && lists_attacks_on(arguments[a].spec_attacked_by(), after, count, a) by {
        let list = arguments[a].spec_attacked_by();
        assert(lists_attacks_on(list, before, count, a));
        assert forall|k: int| 0 <= k < list.len() implies (#[trigger] list[k]) < count && target_of(
            after[list[k] as int],
        ) == a by {
            assert(after[list[k] as int] == before[list[k] as int]);
        }
        assert forall|i: int|
            0 <= i < count && target_of(#[trigger] after[i]) == a implies list.contains(
            i as usize,
        ) by {
            assert(target_of(before[i]) == a);
        }
    }
}

impl InstanceBase {
    /// The number of arguments of the framework.
    pub open spec fn number_of_arguments(&self) -> usize {
        self.arguments@.len() as usize
    }

    /// The instance is well formed: the attacks come first, each clause
    /// bears its index and holds at least one member and no argument twice,
    /// each clause of the proof has a rule, each argument lists the attacks
    /// on it, and the clauses with one member are listed.
    pub open spec fn wf(&self) -> bool {
        &&& self.proof_start <= self.clauses@.len()
        &&& framework_stored(self.clauses@, self.proof_start as int, self.number_of_arguments())
        &&& proof_clauses_stored(
            self.clauses@,
            self.proof_start as int,
            self.number_of_arguments(),
        )
        &&& arguments_indexed(self.arguments@, self.clauses@, self.proof_start as int)
        &&& lists_units(self.unit_clauses@, self.clauses@)
        &&& arguments_below(self.required_arguments@, self.number_of_arguments() as nat)
    }

    /// Each clause of a well-formed instance bears its index and holds at
    /// least one member, no argument twice and only arguments of the
    /// framework.
    pub proof fn lemma_clause(&self, index: int)
        requires
            self.wf(),
            0 <= index < self.clauses@.len(),
        ensures
            self.clauses@[index].spec_index() == index,
            clause_shaped(self.clauses@[index].spec_members(), self.number_of_arguments()),
            self.clauses@[index].spec_members().len() <= usize::MAX,
            self.number_of_arguments() == self.arguments@.len(),
    {
        self.clauses@[index].lemma_members_bounded();
        assert(self.arguments@.len() == self.arguments.len());
        if index < self.proof_start {
            assert(is_new_clause(
                self.clauses@[index],
                index,
                self.clauses@[index].spec_members(),
            ));
        }
    }

    /// What the instance holds.
    pub open spec fn model(&self) -> InstanceModel {
        InstanceModel {
            number_of_arguments: self.number_of_arguments(),
            required: self.required_arguments@,
            clauses: models_of(self.clauses@),
            proof_start: self.proof_start,
        }
    }

    /// Reads an instance from the lines of the framework, of the
    /// description, of the required arguments and of the proof.
    pub fn new(
        framework: &Vec<Vec<u8>>,
        description: &Option<Vec<Vec<u8>>>,
        required: &Option<Vec<Vec<u8>>>,
        proof_lines: &Vec<Vec<u8>>,
        semantics: &Semantics,
    ) -> (result: Result<InstanceBase, ParseError>)
        ensures
            match instance_of(
                lines_model(framework@),
                optional_lines_model(*description),
                optional_lines_model(*required),
                lines_model(proof_lines@),
                *semantics,
            ) {
                Err(error) => result is Err && result->Err_0 == error,
                Ok(model) => {
                    &&& result matches Ok(instance)
                    &&& instance.wf()
                    &&& instance.model() == model
                },
            },
    {
        let (arguments, mut clauses, argument_names, mut unit_clauses) =
            match Self::parse_framework(framework, description) {
            Err(error) => {
                return Err(error);
            },
            Ok(parts) => parts,
        };
        let number_of_attacks = clauses.len();
        let required_arguments = match required {
            Some(lines) => match Self::parse_required(lines, arguments.len(), &argument_names) {
                Err(error) => {
                    return Err(error);
                },
                Ok(literals) => literals,
            },
            None => Vec::new(),
        };
        let ghost attacks = clauses@;
        proof {
            assert(models_of(attacks) =~= attack_models(members_of(attacks)));
        }
        match Self::parse_proof(proof_lines, semantics, &arguments, &mut clauses, &mut unit_clauses) {
            None => {
                proof {
                    lemma_arguments_carry_over(
                        arguments@,
                        attacks,
                        clauses@,
                        number_of_attacks as int,
                    );
                }
                Ok(
                    InstanceBase {
                        arguments,
                        required_arguments,
                        clauses,
                        unit_clauses,
                        proof_start: number_of_attacks,
                    },
                )
            },
            Some(error) => Err(error),
        }
    }

    /// Tells whether no argument is required with both signs.
    pub fn is_required_arguments_consistent(&self) -> (result: bool)
        ensures
            result == consistent(self.required_arguments@),
    {
        broadcast use vstd::std_specs::hash::group_hash_axioms;

        let ghost required = self.required_arguments@;
        let mut signs: HashMap<usize, bool> = HashMap::new();
        let mut position: usize = 0;
        while position < self.required_arguments.len()
            invariant
                position <= required.len(),
                required == self.required_arguments@,
                forall|i: int, j: int|
                    0 <= i < j < position && (#[trigger] required[i]).0 == (
                    #[trigger] required[j]).0 ==> required[i].1 == required[j].1,
                forall|k: int|
                    0 <= k < position ==> signs@.contains_key((#[trigger] required[k]).0)
                        && signs@[required[k].0] == required[k].1,
                forall|argument: usize| #[trigger]
                    signs@.contains_key(argument) ==> exists|k: int|
                        0 <= k < position && required[k] == (argument, signs@[argument]),
            decreases required.len() - position,
        {
            let (argument, sign) = self.required_arguments[position];
            let ghost before = signs@;
            match signs.insert(argument, sign) {
                Some(value) => {
                    if value != sign {
                        proof {
                            let k = choose|k: int|
                                0 <= k < position && required[k] == (argument, before[argument]);
                            assert(required[k].0 == required[position as int].0);
                            assert(required[k].1 != required[position as int].1);
                        }
                        return false;
                    }
                },
                None => {},
            }
            proof {
                assert forall|other: usize| #[trigger] signs@.contains_key(other) implies exists|
                    k: int,
                |
                    0 <= k < position + 1 && required[k] == (other, signs@[other]) by {
                    if other == argument {
                        assert(required[position as int] == (other, signs@[other]));
                    } else {
                        assert(before.contains_key(other));
                        let k = choose|k: int|
                            0 <= k < position && required[k] == (other, before[other]);
                        assert(required[k] == (other, signs@[other]));
                    }
                }
            }
            position += 1;
        }
        true
    }

    /// Reads the framework and the description: the arguments, the attacks,
    /// the names of the arguments and the attacks with one member.
    #[verifier::loop_isolation(false)]
    pub fn parse_framework(framework: &Vec<Vec<u8>>, description: &Option<Vec<Vec<u8>>>) -> (result:
        Result<
            (Vec<ArgumentBase>, Vec<ClauseBase>, Vec<(Vec<u8>, Option<usize>)>, Vec<usize>),
            ParseError,
        >)
        ensures
            match framework_of(lines_model(framework@)) {
                Err(error) => result is Err && result->Err_0 == error,
                Ok(model) => match names_of(
                    optional_lines_model(*description),
                    model.number_of_arguments,
                ) {
                    Err(error) => result is Err && result->Err_0 == error,
                    Ok(names) => {
                        &&& result matches Ok((arguments, clauses, list, unit_clauses))
                        &&& arguments@.len() == model.number_of_arguments
                        &&& members_of(clauses@) == model.attacks
                        &&& attacks_stored(clauses@, model.number_of_arguments)
                        &&& arguments_indexed(arguments@, clauses@, clauses@.len() as int)
                        &&& lists_units(unit_clauses@, clauses@)
                        &&& names_model(list@) == names
                        &&& names_below(names, model.number_of_arguments)
                    },
                },
            },
    {
        let ghost lines = lines_model(framework@);
        let mut position: usize = skip_comments(framework, 0);
        if position >= framework.len() {
            return Err(ParseError { kind: ParseErrorKind::MissingPreamble, line: framework.len() });
        }
        let (number_of_arguments, number_of_attacks) = match read_preamble(&framework[position]) {
            Err(kind) => {
                return Err(ParseError { kind, line: position });
            },
            Ok(counts) => counts,
        };
        position += 1;
        let mut arguments: Vec<ArgumentBase> = Vec::new();
        let mut clauses: Vec<ClauseBase> = Vec::new();
        let mut unit_clauses: Vec<usize> = Vec::new();
        let mut count: usize = 0;
        while count < number_of_arguments
            invariant
                count <= number_of_arguments,
                arguments@.len() == count,
                clauses@.len() == 0,
                arguments_indexed(arguments@, clauses@, 0),
            decreases number_of_arguments - count,
        {
            let mut argument = ArgumentBase::new();
            argument.set_id(count);
            arguments.push(argument);
            count += 1;
        }
        let mut marks = new_marks(number_of_arguments);
        let ghost outcome = attacks_from(
            lines,
            position as int,
            number_of_arguments,
            number_of_attacks,
            Seq::empty(),
        );
        assert(members_of(clauses@) =~= Seq::<Seq<(usize, bool)>>::empty());
        while position < framework.len()
            invariant
                position <= framework@.len(),
                lines == lines_model(framework@),
                arguments@.len() == number_of_arguments,
                marks@.len() == number_of_arguments,
                unmarked(marks@),
                clauses@.len() <= number_of_attacks,
                attacks_stored(clauses@, number_of_arguments),
                arguments_indexed(arguments@, clauses@, clauses@.len() as int),
                lists_units(unit_clauses@, clauses@),
                outcome == attacks_from(
                    lines,
                    position as int,
                    number_of_arguments,
                    number_of_attacks,
                    members_of(clauses@),
                ),
            decreases framework@.len() - position,
        {
            let line = &framework[position];
            if !is_comment_line(line) {
                if clauses.len() >= number_of_attacks {
                    return Err(ParseError { kind: ParseErrorKind::TooManyAttacks, line: position });
                }
                let ghost before = clauses@;
                match read_attack(line, clauses.len(), number_of_arguments, &mut marks) {
                    Err(kind) => {
                        return Err(ParseError { kind, line: position });
                    },
                    Ok(clause) => {
                        store_attack(&mut arguments, &mut clauses, &mut unit_clauses, clause);
                        proof {
                            assert(members_of(clauses@) =~= members_of(before).push(
                                clause.spec_members(),
                            ));
                        }
                    },
                }
            }
            position += 1;
        }
        if clauses.len() != number_of_attacks {
            return Err(ParseError { kind: ParseErrorKind::TooFewAttacks, line: framework.len() });
        }
        let mut names: Vec<(Vec<u8>, Option<usize>)> = Vec::new();
        match description {
            None => {
                assert(names_model(names@) =~= Seq::empty());
            },
            Some(description) => {
                let ghost texts = lines_model(description@);
                let ghost named = names_from(texts, 0, number_of_arguments, Seq::empty());
                let mut position: usize = 0;
                assert(names_model(names@) =~= Seq::empty());
                while position < description.len()
                    invariant
                        position <= description@.len(),
                        texts == lines_model(description@),
                        names_below(names_model(names@), number_of_arguments),
                        named == names_from(
                            texts,
                            position as int,
                            number_of_arguments,
                            names_model(names@),
                        ),
                    decreases description@.len() - position,
                {
                    let line = &description[position];
                    if !is_comment_line(line) {
                        match read_description(line, number_of_arguments) {
                            Err(kind) => {
                                return Err(ParseError { kind, line: position });
                            },
                            Ok((start, argument)) => {
                                let ghost before = names_model(names@);
                                let ghost name = line@.subrange(start as int, line@.len() as int);
                                let at = find_name(&names, line, start, line.len());
                                if at < names.len() {
                                    names[at].1 = None;
                                    assert(names_model(names@) =~= before.update(
                                        at as int,
                                        (name, None),
                                    ));
                                } else {
                                    names.push((copy_range(line, start, line.len()), Some(argument)));
                                    assert(names_model(names@) =~= before.push(
                                        (name, Some(argument)),
                                    ));
                                }
                            },
                        }
                    }
                    position += 1;
                }
            },
        }
        Ok((arguments, clauses, names, unit_clauses))
    }

    /// Reads the required arguments.
    #[verifier::loop_isolation(false)]
    pub fn parse_required(
        required: &Vec<Vec<u8>>,
        number_of_arguments: usize,
        argument_names: &Vec<(Vec<u8>, Option<usize>)>,
    ) -> (result: Result<Vec<(usize, bool)>, ParseError>)
        requires
            names_below(names_model(argument_names@), number_of_arguments),
        ensures
            match required_from(
                lines_model(required@),
                0,
                number_of_arguments,
                names_model(argument_names@),
                Seq::empty(),
            ) {
                Err(error) => result is Err && result->Err_0 == error,
                Ok(literals) => {
                    &&& result matches Ok(list)
                    &&& list@ == literals
                    &&& arguments_below(literals, number_of_arguments as nat)
                },
            },
    {
        let ghost lines = lines_model(required@);
        let ghost names = names_model(argument_names@);
        let ghost outcome = required_from(lines, 0, number_of_arguments, names, Seq::empty());
        let mut required_arguments: Vec<(usize, bool)> = Vec::new();
        let mut position: usize = 0;
        while position < required.len()
            invariant
                position <= required@.len(),
                lines == lines_model(required@),
                names == names_model(argument_names@),
                names_below(names, number_of_arguments),
                arguments_below(required_arguments@, number_of_arguments as nat),
                outcome == required_from(
                    lines,
                    position as int,
                    number_of_arguments,
                    names,
                    required_arguments@,
                ),
            decreases required@.len() - position,
        {
            let line = &required[position];
            if !is_comment_line(line) {
                match read_required(line, number_of_arguments, argument_names) {
                    Err(kind) => {
                        return Err(ParseError { kind, line: position });
                    },
                    Ok(literal) => {
                        required_arguments.push(literal);
                    },
                }
            }
            position += 1;
        }
        Ok(required_arguments)
    }

    /// Reads the clause that `line` holds from `start` on, under the given
    /// index. The marks are left on the members of the clause.
    #[verifier::loop_isolation(false)]
    pub fn parse_proof_clause(
        clause_id: usize,
        line: &Vec<u8>,
        start: usize,
        marks: &mut Vec<u8>,
        number_of_arguments: usize,
    ) -> (result: Result<ClauseBase, ParseErrorKind>)
        requires
            start <= line@.len(),
            old(marks)@.len() == number_of_arguments,
            unmarked(old(marks)@),
        ensures
            match clause_of(
                line@.subrange(start as int, line@.len() as int),
                number_of_arguments,
            ) {
                Err(kind) => result is Err && result->Err_0 == kind,
                Ok(members) => {
                    &&& result matches Ok(clause)
                    &&& is_new_clause(clause, clause_id as int, members)
                    &&& distinct_arguments(members)
                    &&& arguments_below(members, number_of_arguments as nat)
                    &&& final(marks)@.len() == number_of_arguments
                    &&& marks_match(final(marks)@, members)
                },
            },
    {
        let text = copy_range(line, start, line.len());
        let tokens = split_line(&text);
        let ghost texts = split(text@);
        let count = tokens.len();
        proof {
            assert forall|i: int| 0 <= i < count implies #[trigger] texts[i] == range_text(
                text@,
                tokens@[i],
            ) by {
                assert(ranges_text(text@, tokens@)[i] == range_text(text@, tokens@[i]));
            }
        }
        if !is_zero_token(&text, tokens[count - 1].0, tokens[count - 1].1) {
            return Err(ParseErrorKind::MalformedProofLine);
        }
        let mut clause = ClauseBase::new(clause_id);
        proof {
            lemma_unmarked_matches_empty(marks@);
        }
        let ghost outcome = clause_of(text@, number_of_arguments);
        let mut position: usize = 0;
        while position < count - 1
            invariant
                position <= count - 1,
                count == tokens@.len(),
                count == texts.len(),
                texts == split(text@),
                ranges_within(tokens@, text@.len()),
                forall|i: int|
                    0 <= i < count ==> #[trigger] texts[i] == range_text(text@, tokens@[i]),
                marks@.len() == number_of_arguments,
                marks_match(marks@, clause.spec_members()),
                is_new_clause(clause, clause_id as int, clause.spec_members()),
                distinct_arguments(clause.spec_members()),
                arguments_below(clause.spec_members(), number_of_arguments as nat),
                literals_from(texts, position as int, clause.spec_members(), number_of_arguments)
                    == outcome,
            decreases count - position,
        {
            let (magnitude, positive) = match read_signed(
                &text,
                tokens[position].0,
                tokens[position].1,
            ) {
                None => {
                    return Err(ParseErrorKind::InvalidLiteral);
                },
                Some(literal) => literal,
            };
            if magnitude == 0 || magnitude > number_of_arguments {
                return Err(ParseErrorKind::UnknownLiteral);
            }
            let ghost before = clause.spec_members();
            add_member_once(&mut clause, marks, magnitude - 1, positive);
            proof {
                lemma_with_member_distinct(before, (magnitude - 1) as usize, positive);
            }
            position += 1;
        }
        Ok(clause)
    }

    /// Reads the proof and adds its clauses behind the attacks. Returns the
    /// fault of the proof, if it has one.
    #[verifier::loop_isolation(false)]
    pub fn parse_proof(
        proof_lines: &Vec<Vec<u8>>,
        semantics: &Semantics,
        arguments: &Vec<ArgumentBase>,
        clauses: &mut Vec<ClauseBase>,
        unit_clauses: &mut Vec<usize>,
    ) -> (result: Option<ParseError>)
        requires
            lists_units(old(unit_clauses)@, old(clauses)@),
        ensures
            match proof_from(
                lines_model(proof_lines@),
                0,
                *semantics,
                arguments@.len() as usize,
                old(clauses)@.len() as int,
                models_of(old(clauses)@),
            ) {
                Err(error) => result == Some(error),
                Ok(all) => {
                    &&& result is None
                    &&& models_of(final(clauses)@) == all
                    &&& final(clauses)@.len() >= old(clauses)@.len()
                    &&& forall|i: int|
                        0 <= i < old(clauses)@.len() ==> final(clauses)@[i] == old(clauses)@[i]
                    &&& proof_clauses_stored(
                        final(clauses)@,
                        old(clauses)@.len() as int,
                        arguments@.len() as usize,
                    )
                    &&& lists_units(final(unit_clauses)@, final(clauses)@)
                },
            },
    {
        let number_of_arguments = arguments.len();
        let proof_start = clauses.len();
        let ghost lines = lines_model(proof_lines@);
        let ghost outcome = proof_from(
            lines,
            0,
            *semantics,
            number_of_arguments,
            proof_start as int,
            models_of(clauses@),
        );
        let mut marks = new_marks(number_of_arguments);
        let mut index: HashMap<u64, Vec<usize>> = HashMap::new();
        let mut position: usize = 0;
        while position < proof_lines.len()
            invariant
                position <= proof_lines@.len(),
                proof_start <= clauses@.len(),
                indexed(index@, clauses@, proof_start as int),
                forall|i: int| 0 <= i < proof_start ==> clauses@[i] == old(clauses)@[i],
                proof_clauses_stored(clauses@, proof_start as int, number_of_arguments),
                lists_units(unit_clauses@, clauses@),
                marks@.len() == number_of_arguments,
                unmarked(marks@),
                outcome == proof_from(
                    lines,
                    position as int,
                    *semantics,
                    number_of_arguments,
                    proof_start as int,
                    models_of(clauses@),
                ),
            decreases proof_lines@.len() - position,
        {
            let line = &proof_lines[position];
            if is_comment_line(line) {
            } else if line.len() > 0 && line[0] == DELETION_MARK {
                if line.len() < 2 {
                    return Some(
                        ParseError { kind: ParseErrorKind::MalformedProofLine, line: position },
                    );
                }
                let deletion = match Self::parse_proof_clause(
                    clauses.len(),
                    line,
                    2,
                    &mut marks,
                    number_of_arguments,
                ) {
                    Err(kind) => {
                        return Some(ParseError { kind, line: position });
                    },
                    Ok(clause) => clause,
                };
                if deletion.get_number_of_members() == 0 {
                    return Some(ParseError { kind: ParseErrorKind::EmptyDeletion, line: position });
                }
                let ghost before = clauses@;
                match delete_clause(
                    clauses,
                    proof_start,
                    number_of_arguments,
                    &marks,
                    &deletion,
                    &index,
                ) {
                    Err(kind) => {
                        return Some(ParseError { kind, line: position });
                    },
                    Ok(()) => {},
                }
                proof {
                    lemma_units_carry_over(unit_clauses@, before, clauses@);
                }
                clear_marks(&deletion, &mut marks);
            } else {
                let (start, verifier) = match semantics.get_verifier(line) {
                    None => {
                        return Some(
                            ParseError { kind: ParseErrorKind::MalformedClause, line: position },
                        );
                    },
                    Some(rule) => rule,
                };
                let mut clause = match Self::parse_proof_clause(
                    clauses.len(),
                    line,
                    start,
                    &mut marks,
                    number_of_arguments,
                ) {
                    Err(kind) => {
                        return Some(ParseError { kind, line: position });
                    },
                    Ok(clause) => clause,
                };
                if clause.get_number_of_members() == 0 {
                    let next = skip_comments(proof_lines, position + 1);
                    if next < proof_lines.len() {
                        return Some(
                            ParseError { kind: ParseErrorKind::MissingEmptyClause, line: next },
                        );
                    }
                    return None;
                }
                clear_marks(&clause, &mut marks);
                clause.set_verifier(verifier);
                let ghost before = clauses@;
                store_clause(clauses, unit_clauses, clause);
                proof {
                    assert(models_of(clauses@) =~= models_of(before).push(
                        proof_clause(clause.spec_members(), verifier),
                    ));
                    assert(clauses@.drop_last() =~= before);
                }
                record_clause(&mut index, clauses, proof_start);
            }
            position += 1;
        }
        Some(ParseError { kind: ParseErrorKind::MissingEmptyClause, line: proof_lines.len() })
    }
}

} // verus!
