//! The framework text and the description text.
//!
//! A framework starts with a preamble `A N 0`: the number of arguments and
//! the number of attacks. Each further line is an attack `t a1 .. ak 0`: the
//! attacked argument and its attackers, by their numbers from one. A
//! description line `n name` gives argument `n` a name. Lines that start with
//! `#` are comments.

use crate::clause_base::{distinct_arguments, with_member};
use crate::clause_base::ClauseBase;
use crate::parsers::error::{fault, ParseError, ParseErrorKind};
use crate::parsers::members::{add_member_once, clear_marks, lemma_with_member_distinct};
use crate::parsers::members::{lemma_unmarked_matches_empty, marks_match, unmarked};
use crate::semantics::VerifierType;
use crate::text::{is_comment, parse_unsigned, range_text, ranges_text, ranges_within};
use crate::text::{split, DIGIT_ZERO};
use crate::text::{is_zero_token, read_unsigned, split_line};
use vstd::prelude::*;

verus! {

/// The token that closes a line.
pub open spec fn zero_token() -> Seq<u8> {
    seq![DIGIT_ZERO]
}

/// The members of an attack, given those read so far and the tokens from
/// `pos` on: each attacker once, up to the first `0`.
pub open spec fn attackers_from(
    tokens: Seq<Seq<u8>>,
    pos: int,
    members: Seq<(usize, bool)>,
    number_of_arguments: usize,
) -> Result<Seq<(usize, bool)>, ParseErrorKind>
    decreases tokens.len() - pos,
{
    if pos >= tokens.len() {
        Ok(members)
    } else {
        match parse_unsigned(tokens[pos]) {
            None => Err(ParseErrorKind::InvalidAttackMember),
            Some(number) => if number == 0 {
                Ok(members)
            } else if number > number_of_arguments {
                Err(ParseErrorKind::UnknownAttackMember)
            } else {
                attackers_from(
                    tokens,
                    pos + 1,
                    with_member(members, (number - 1) as usize, false),
                    number_of_arguments,
                )
            },
        }
    }
}

/// The clause of an attack line: the attacked argument, then its attackers,
/// all with negative sign and each argument once.
pub open spec fn attack_of(line: Seq<u8>, number_of_arguments: usize) -> Result<
    Seq<(usize, bool)>,
    ParseErrorKind,
> {
    let tokens = split(line);
    if tokens.len() < 3 || tokens.last() != zero_token() {
        Err(ParseErrorKind::MalformedAttack)
    } else {
        match parse_unsigned(tokens[0]) {
            None => Err(ParseErrorKind::InvalidAttackedArgument),
            Some(number) => if number == 0 || number > number_of_arguments {
                Err(ParseErrorKind::InvalidAttackedArgument)
            } else {
                attackers_from(tokens, 1, seq![((number - 1) as usize, false)], number_of_arguments)
            },
        }
    }
}

/// The attacks of a framework, given those read so far and the lines from
/// `pos` on.
pub open spec fn attacks_from(
    lines: Seq<Seq<u8>>,
    pos: int,
    number_of_arguments: usize,
    number_of_attacks: usize,
    attacks: Seq<Seq<(usize, bool)>>,
) -> Result<Seq<Seq<(usize, bool)>>, ParseError>
    decreases lines.len() - pos,
{
    if pos >= lines.len() {
        if attacks.len() == number_of_attacks {
            Ok(attacks)
        } else {
            Err(fault(ParseErrorKind::TooFewAttacks, lines.len() as int))
        }
    } else if is_comment(lines[pos]) {
        attacks_from(lines, pos + 1, number_of_arguments, number_of_attacks, attacks)
    } else if attacks.len() >= number_of_attacks {
        Err(fault(ParseErrorKind::TooManyAttacks, pos))
    } else {
        match attack_of(lines[pos], number_of_arguments) {
            Err(kind) => Err(fault(kind, pos)),
            Ok(members) => attacks_from(
                lines,
                pos + 1,
                number_of_arguments,
                number_of_attacks,
                attacks.push(members),
            ),
        }
    }
}

/// The index of the first line at or behind `pos` that is no comment, or the
/// number of lines where there is none.
pub open spec fn first_content(lines: Seq<Seq<u8>>, pos: int) -> int
    decreases lines.len() - pos,
{
    if pos >= lines.len() {
        lines.len() as int
    } else if is_comment(lines[pos]) {
        first_content(lines, pos + 1)
    } else {
        pos
    }
}

/// The two counts of a preamble.
pub open spec fn preamble_of(line: Seq<u8>) -> Result<(usize, usize), ParseErrorKind> {
    let tokens = split(line);
    if tokens.len() != 3 || tokens[2] != zero_token() {
        Err(ParseErrorKind::MalformedPreamble)
    } else {
        match parse_unsigned(tokens[0]) {
            None => Err(ParseErrorKind::InvalidArgumentCount),
            Some(number_of_arguments) => match parse_unsigned(tokens[1]) {
                None => Err(ParseErrorKind::InvalidAttackCount),
                Some(number_of_attacks) => Ok((number_of_arguments, number_of_attacks)),
            },
        }
    }
}

/// What a framework text holds.
pub struct FrameworkModel {
    pub number_of_arguments: usize,
    pub attacks: Seq<Seq<(usize, bool)>>,
}

/// The framework that a text describes.
pub open spec fn framework_of(lines: Seq<Seq<u8>>) -> Result<FrameworkModel, ParseError> {
    let first = first_content(lines, 0);
    if first >= lines.len() {
        Err(fault(ParseErrorKind::MissingPreamble, lines.len() as int))
    } else {
        match preamble_of(lines[first]) {
            Err(kind) => Err(fault(kind, first)),
            Ok((number_of_arguments, number_of_attacks)) => match attacks_from(
                lines,
                first + 1,
                number_of_arguments,
                number_of_attacks,
                Seq::empty(),
            ) {
                Err(error) => Err(error),
                Ok(attacks) => Ok(FrameworkModel { number_of_arguments, attacks }),
            },
        }
    }
}

/// The names of arguments: each name once, with the argument that bears it,
/// or with nothing where several lines gave the name.
pub type Names = Seq<(Seq<u8>, Option<usize>)>;

/// The index of the first entry at or behind `pos` with the given name, or
/// the number of entries where there is none.
pub open spec fn name_index(names: Names, name: Seq<u8>, pos: int) -> int
    decreases names.len() - pos,
{
    if pos >= names.len() {
        names.len() as int
    } else if names[pos].0 == name {
        pos
    } else {
        name_index(names, name, pos + 1)
    }
}

/// The names after one more line has given `name` to `argument`: a name
/// given before becomes ambiguous.
pub open spec fn with_name(names: Names, name: Seq<u8>, argument: usize) -> Names {
    let at = name_index(names, name, 0);
    if at < names.len() {
        names.update(at, (name, None))
    } else {
        names.push((name, Some(argument)))
    }
}

/// The name and the argument of a description line. The name is all that
/// follows the first space.
pub open spec fn description_of(line: Seq<u8>, number_of_arguments: usize) -> Result<
    (Seq<u8>, usize),
    ParseErrorKind,
> {
    let tokens = split(line);
    if tokens.len() < 2 {
        Err(ParseErrorKind::MalformedDescription)
    } else {
        match parse_unsigned(tokens[0]) {
            None => Err(ParseErrorKind::InvalidDescriptionArgument),
            Some(number) => if number == 0 || number > number_of_arguments {
                Err(ParseErrorKind::InvalidDescriptionArgument)
            } else {
                Ok(
                    (
                        line.subrange(tokens[0].len() as int + 1, line.len() as int),
                        (number - 1) as usize,
                    ),
                )
            },
        }
    }
}

/// The names of a description, given those read so far and the lines from
/// `pos` on.
pub open spec fn names_from(
    lines: Seq<Seq<u8>>,
    pos: int,
    number_of_arguments: usize,
    names: Names,
) -> Result<Names, ParseError>
    decreases lines.len() - pos,
{
    if pos >= lines.len() {
        Ok(names)
    } else if is_comment(lines[pos]) {
        names_from(lines, pos + 1, number_of_arguments, names)
    } else {
        match description_of(lines[pos], number_of_arguments) {
            Err(kind) => Err(fault(kind, pos)),
            Ok((name, argument)) => names_from(
                lines,
                pos + 1,
                number_of_arguments,
                with_name(names, name, argument),
            ),
        }
    }
}

/// The names that a description text gives; none without a description.
pub open spec fn names_of(lines: Option<Seq<Seq<u8>>>, number_of_arguments: usize) -> Result<
    Names,
    ParseError,
> {
    match lines {
        None => Ok(Seq::empty()),
        Some(lines) => names_from(lines, 0, number_of_arguments, Seq::empty()),
    }
}

/// Every name that is one argument's is the name of an argument below the
/// bound.
pub open spec fn names_below(names: Names, bound: usize) -> bool {
    forall|i: int|
        0 <= i < names.len() ==> ((#[trigger] names[i]).1 matches Some(argument) ==> argument
            < bound)
}

/// What a list of names stands for.
pub open spec fn names_model(names: Seq<(Vec<u8>, Option<usize>)>) -> Names {
    Seq::new(names.len(), |i: int| (names[i].0@, names[i].1))
}

/// The clause is new under the given index, with the given members: it has
/// no rule yet and is not deleted.
pub open spec fn is_new_clause(clause: ClauseBase, index: int, members: Seq<(usize, bool)>) -> bool {
    &&& clause.spec_index() == index
    &&& clause.spec_members() == members
    &&& clause.spec_verifier() == None::<VerifierType>
    &&& clause.spec_deleted_at() == None::<usize>
}

/// The members of an attack: at least the attacked argument, all negative,
/// all below the number of arguments, none twice.
pub open spec fn attack_shaped(members: Seq<(usize, bool)>, number_of_arguments: usize) -> bool {
    &&& members.len() >= 1
    &&& distinct_arguments(members)
    &&& forall|i: int|
        0 <= i < members.len() ==> (#[trigger] members[i]).0 < number_of_arguments
            && !members[i].1
}

/// Reads an attack line into the clause with the given index.
pub fn read_attack(
    line: &Vec<u8>,
    index: usize,
    number_of_arguments: usize,
    marks: &mut Vec<u8>,
) -> (result: Result<ClauseBase, ParseErrorKind>)
    requires
        old(marks)@.len() == number_of_arguments,
        unmarked(old(marks)@),
    ensures
        match attack_of(line@, number_of_arguments) {
            Err(kind) => result == Err::<ClauseBase, ParseErrorKind>(kind),
            Ok(members) => {
                &&& result matches Ok(clause)
                &&& is_new_clause(clause, index as int, members)
                &&& attack_shaped(members, number_of_arguments)
                &&& final(marks)@.len() == number_of_arguments
                &&& unmarked(final(marks)@)
            },
        },
{
    let tokens = split_line(line);
    let ghost texts = split(line@);
    let count = tokens.len();
    proof {
        assert forall|i: int| 0 <= i < count implies #[trigger] texts[i] == range_text(
            line@,
            tokens@[i],
        ) by {
            assert(ranges_text(line@, tokens@)[i] == range_text(line@, tokens@[i]));
        }
    }
    if count < 3 || !is_zero_token(line, tokens[count - 1].0, tokens[count - 1].1) {
        return Err(ParseErrorKind::MalformedAttack);
    }
    let attacked = match read_unsigned(line, tokens[0].0, tokens[0].1) {
        None => {
            return Err(ParseErrorKind::InvalidAttackedArgument);
        },
        Some(number) => number,
    };
    if attacked == 0 || attacked > number_of_arguments {
        return Err(ParseErrorKind::InvalidAttackedArgument);
    }
    let mut clause = ClauseBase::new(index);
    proof {
        lemma_unmarked_matches_empty(marks@);
    }
    add_member_once(&mut clause, marks, attacked - 1, false);
    proof {
        assert(clause.spec_members() =~= seq![((attacked - 1) as usize, false)]);
        assert(distinct_arguments(clause.spec_members()));
    }
    let ghost outcome = attack_of(line@, number_of_arguments);
    let mut position: usize = 1;
    while position < count
        invariant
            1 <= position <= count,
            1 <= attacked <= number_of_arguments,
            count == tokens@.len(),
            count == texts.len(),
            texts == split(line@),
            ranges_within(tokens@, line@.len()),
            forall|i: int| 0 <= i < count ==> #[trigger] texts[i] == range_text(line@, tokens@[i]),
            marks@.len() == number_of_arguments,
            marks_match(marks@, clause.spec_members()),
            clause.spec_index() == index,
            clause.spec_verifier() == None::<VerifierType>,
            clause.spec_deleted_at() == None::<usize>,
            attack_shaped(clause.spec_members(), number_of_arguments),
            outcome == attack_of(line@, number_of_arguments),
            attackers_from(texts, position as int, clause.spec_members(), number_of_arguments)
                == outcome,
        ensures
            outcome == Ok::<Seq<(usize, bool)>, ParseErrorKind>(clause.spec_members()),
            marks@.len() == number_of_arguments,
            marks_match(marks@, clause.spec_members()),
            clause.spec_index() == index,
            clause.spec_verifier() == None::<VerifierType>,
            clause.spec_deleted_at() == None::<usize>,
            attack_shaped(clause.spec_members(), number_of_arguments),
        decreases count - position,
    {
        let number = match read_unsigned(line, tokens[position].0, tokens[position].1) {
            None => {
                return Err(ParseErrorKind::InvalidAttackMember);
            },
            Some(number) => number,
        };
        if number == 0 {
            break;
        }
        if number > number_of_arguments {
            return Err(ParseErrorKind::UnknownAttackMember);
        }
        let ghost before = clause.spec_members();
        add_member_once(&mut clause, marks, number - 1, false);
        proof {
            lemma_with_member_distinct(before, (number - 1) as usize, false);
            let after = clause.spec_members();
            assert forall|i: int| 0 <= i < after.len() implies (#[trigger] after[i]).0
                < number_of_arguments && !after[i].1 by {
                if i < before.len() {
                    assert(after[i] == before[i]);
                }
            }
        }
        position += 1;
    }
    clear_marks(&clause, marks);
    Ok(clause)
}

/// Reads the preamble of a framework.
pub fn read_preamble(line: &Vec<u8>) -> (result: Result<(usize, usize), ParseErrorKind>)
    ensures
        result == preamble_of(line@),
{
    let tokens = split_line(line);
    let ghost texts = split(line@);
    proof {
        assert forall|i: int| 0 <= i < tokens@.len() implies #[trigger] texts[i] == range_text(
            line@,
            tokens@[i],
        ) by {
            assert(ranges_text(line@, tokens@)[i] == range_text(line@, tokens@[i]));
        }
    }
    if tokens.len() != 3 || !is_zero_token(line, tokens[2].0, tokens[2].1) {
        return Err(ParseErrorKind::MalformedPreamble);
    }
    let number_of_arguments = match read_unsigned(line, tokens[0].0, tokens[0].1) {
        None => {
            return Err(ParseErrorKind::InvalidArgumentCount);
        },
        Some(number) => number,
    };
    match read_unsigned(line, tokens[1].0, tokens[1].1) {
        None => Err(ParseErrorKind::InvalidAttackCount),
        Some(number_of_attacks) => Ok((number_of_arguments, number_of_attacks)),
    }
}

/// Reads a description line and returns where its name starts, and its
/// argument.
pub fn read_description(line: &Vec<u8>, number_of_arguments: usize) -> (result: Result<
    (usize, usize),
    ParseErrorKind,
>)
    ensures
        match description_of(line@, number_of_arguments) {
            Err(kind) => result == Err::<(usize, usize), ParseErrorKind>(kind),
            Ok((name, argument)) => {
                &&& result matches Ok((start, index))
                &&& index == argument
                &&& start <= line@.len()
                &&& name == line@.subrange(start as int, line@.len() as int)
            },
        },
{
    let tokens = split_line(line);
    let ghost texts = split(line@);
    proof {
        assert forall|i: int| 0 <= i < tokens@.len() implies #[trigger] texts[i] == range_text(
            line@,
            tokens@[i],
        ) by {
            assert(ranges_text(line@, tokens@)[i] == range_text(line@, tokens@[i]));
        }
    }
    if tokens.len() < 2 {
        return Err(ParseErrorKind::MalformedDescription);
    }
    let number = match read_unsigned(line, tokens[0].0, tokens[0].1) {
        None => {
            return Err(ParseErrorKind::InvalidDescriptionArgument);
        },
        Some(number) => number,
    };
    if number == 0 || number > number_of_arguments {
        return Err(ParseErrorKind::InvalidDescriptionArgument);
    }
    proof {
        assert(tokens@[0int + 1].0 == tokens@[0].1 + 1);
        assert(texts[0].len() == tokens@[0].1);
    }
    Ok((tokens[1].0, number - 1))
}

/// Copies `line[start..end]`.
pub fn copy_range(line: &Vec<u8>, start: usize, end: usize) -> (text: Vec<u8>)
    requires
        start <= end <= line@.len(),
    ensures
        text@ == line@.subrange(start as int, end as int),
{
    let mut text: Vec<u8> = Vec::new();
    let mut position: usize = start;
    while position < end
        invariant
            start <= position <= end <= line@.len(),
            text@ == line@.subrange(start as int, position as int),
        decreases end - position,
    {
        text.push(line[position]);
        proof {
            assert(text@ =~= line@.subrange(start as int, position + 1));
        }
        position += 1;
    }
    text
}

/// Tells whether `line[start..end]` is the given text.
pub fn range_equals(text: &Vec<u8>, line: &Vec<u8>, start: usize, end: usize) -> (equal: bool)
    requires
        start <= end <= line@.len(),
    ensures
        equal == (text@ == line@.subrange(start as int, end as int)),
{
    let ghost range = line@.subrange(start as int, end as int);
    if text.len() != end - start {
        return false;
    }
    let mut position: usize = 0;
    while position < text.len()
        invariant
            position <= text@.len(),
            text@.len() == end - start,
            start <= end <= line@.len(),
            range == line@.subrange(start as int, end as int),
            forall|i: int| 0 <= i < position ==> text@[i] == range[i],
        decreases text@.len() - position,
    {
        if text[position] != line[start + position] {
            assert(text@[position as int] != range[position as int]);
            return false;
        }
        position += 1;
    }
    proof {
        assert(text@ =~= range);
    }
    true
}

/// Finds the entry with the name `line[start..end]` and returns its index,
/// or the number of entries where there is none.
pub fn find_name(names: &Vec<(Vec<u8>, Option<usize>)>, line: &Vec<u8>, start: usize, end: usize) -> (
    at: usize
)
    requires
        start <= end <= line@.len(),
    ensures
        at == name_index(names_model(names@), line@.subrange(start as int, end as int), 0),
        at <= names@.len(),
        at < names@.len() ==> names@[at as int].0@ == line@.subrange(start as int, end as int),
{
    let ghost name = line@.subrange(start as int, end as int);
    let ghost model = names_model(names@);
    let mut at: usize = 0;
    while at < names.len()
        invariant
            at <= names@.len(),
            start <= end <= line@.len(),
            name == line@.subrange(start as int, end as int),
            model == names_model(names@),
            name_index(model, name, 0) == name_index(model, name, at as int),
        decreases names@.len() - at,
    {
        if range_equals(&names[at].0, line, start, end) {
            return at;
        }
        at += 1;
    }
    at
}

} // verus!
