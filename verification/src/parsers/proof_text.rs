//! The proof text.
//!
//! Each line holds literals, closed by `0`: numbers of arguments from one,
//! with a leading `-` for the negative sign. A line that starts with `d`
//! deletes a clause of the proof; any other line adds a clause, by the rule
//! that its start announces. The line of the empty clause ends the proof.

use crate::clause_base::{arguments_below, distinct_arguments, has_argument, with_member};
use crate::clause_base::{ClauseBase, ClauseModel};
use crate::parsers::clause_index::{clause_key, indexed, lemma_index_carries_over};
use crate::parsers::clause_index::lemma_same_key;
use crate::parsers::error::{fault, ParseError, ParseErrorKind};
use crate::parsers::framework::{first_content, zero_token};
use crate::parsers::members::{mark_of, marks_match, ABSENT, NEGATIVE, POSITIVE};
use crate::semantics::{Semantics, VerifierType};
use crate::text::{is_comment, parse_signed, split};
use std::collections::HashMap;
use vstd::prelude::*;

verus! {

/// The first byte of a line that deletes a clause.
pub const DELETION_MARK: u8 = 100;

/// The members of a clause, given those read so far and the tokens from
/// `pos` on, the last token left out: each argument once, with the sign of
/// its first literal.
pub open spec fn literals_from(
    tokens: Seq<Seq<u8>>,
    pos: int,
    members: Seq<(usize, bool)>,
    number_of_arguments: usize,
) -> Result<Seq<(usize, bool)>, ParseErrorKind>
    decreases tokens.len() - pos,
{
    if pos >= tokens.len() - 1 {
        Ok(members)
    } else {
        match parse_signed(tokens[pos]) {
            None => Err(ParseErrorKind::InvalidLiteral),
            Some((magnitude, positive)) => if magnitude == 0 || magnitude > number_of_arguments {
                Err(ParseErrorKind::UnknownLiteral)
            } else {
                literals_from(
                    tokens,
                    pos + 1,
                    with_member(members, (magnitude - 1) as usize, positive),
                    number_of_arguments,
                )
            },
        }
    }
}

/// The members of the clause that a text holds.
pub open spec fn clause_of(text: Seq<u8>, number_of_arguments: usize) -> Result<
    Seq<(usize, bool)>,
    ParseErrorKind,
> {
    let tokens = split(text);
    if tokens.last() != zero_token() {
        Err(ParseErrorKind::MalformedProofLine)
    } else {
        literals_from(tokens, 0, Seq::empty(), number_of_arguments)
    }
}

/// Two clauses hold the same literals, in whatever order.
pub open spec fn same_literals(first: Seq<(usize, bool)>, second: Seq<(usize, bool)>) -> bool {
    first.to_multiset() == second.to_multiset()
}

/// Clause `k` is a clause of the proof that holds the given literals.
pub open spec fn is_match(
    clauses: Seq<ClauseModel>,
    proof_start: int,
    members: Seq<(usize, bool)>,
    k: int,
) -> bool {
    proof_start <= k < clauses.len() && same_literals(clauses[k].members, members)
}

/// Clause `k` is a clause of the proof that holds the given literals and has
/// not been deleted.
pub open spec fn is_live_match(
    clauses: Seq<ClauseModel>,
    proof_start: int,
    members: Seq<(usize, bool)>,
    k: int,
) -> bool {
    is_match(clauses, proof_start, members, k) && clauses[k].deleted_at is None
}

/// Clause `k` is the earliest clause of the proof that holds the given
/// literals and has not been deleted.
pub open spec fn is_earliest_live_match(
    clauses: Seq<ClauseModel>,
    proof_start: int,
    members: Seq<(usize, bool)>,
    k: int,
) -> bool {
    &&& is_live_match(clauses, proof_start, members, k)
    &&& forall|j: int| is_live_match(clauses, proof_start, members, j) ==> k <= j
}

/// The clause that a deletion of the given literals deletes.
pub open spec fn deletion_target(
    clauses: Seq<ClauseModel>,
    proof_start: int,
    members: Seq<(usize, bool)>,
) -> Option<int> {
    if exists|k: int| is_earliest_live_match(clauses, proof_start, members, k) {
        Some(choose|k: int| is_earliest_live_match(clauses, proof_start, members, k))
    } else {
        None
    }
}

/// The clause, deleted from the given index on.
pub open spec fn deleted(clause: ClauseModel, at: usize) -> ClauseModel {
    ClauseModel { members: clause.members, verifier: clause.verifier, deleted_at: Some(at) }
}

/// The clauses after a deletion of the given literals: the target is deleted
/// from the index of the next clause on.
pub open spec fn with_deletion(
    clauses: Seq<ClauseModel>,
    proof_start: int,
    members: Seq<(usize, bool)>,
) -> Result<Seq<ClauseModel>, ParseErrorKind> {
    match deletion_target(clauses, proof_start, members) {
        Some(k) => Ok(clauses.update(k, deleted(clauses[k], clauses.len() as usize))),
        None => if exists|k: int| is_match(clauses, proof_start, members, k) {
            Err(ParseErrorKind::AlreadyDeleted)
        } else {
            Err(ParseErrorKind::UnknownDeletion)
        },
    }
}

/// The clause of a proof line with the given members and rule.
pub open spec fn proof_clause(members: Seq<(usize, bool)>, verifier: VerifierType) -> ClauseModel {
    ClauseModel { members, verifier: Some(verifier), deleted_at: None }
}

/// The clauses of an instance, given those read so far and the lines of the
/// proof from `pos` on.
pub open spec fn proof_from(
    lines: Seq<Seq<u8>>,
    pos: int,
    semantics: Semantics,
    number_of_arguments: usize,
    proof_start: int,
    clauses: Seq<ClauseModel>,
) -> Result<Seq<ClauseModel>, ParseError>
    decreases lines.len() - pos,
{
    if pos >= lines.len() {
        Err(fault(ParseErrorKind::MissingEmptyClause, lines.len() as int))
    } else if is_comment(lines[pos]) {
        proof_from(lines, pos + 1, semantics, number_of_arguments, proof_start, clauses)
    } else if lines[pos].len() > 0 && lines[pos][0] == DELETION_MARK {
        if lines[pos].len() < 2 {
            Err(fault(ParseErrorKind::MalformedProofLine, pos))
        } else {
            match clause_of(lines[pos].subrange(2, lines[pos].len() as int), number_of_arguments) {
                Err(kind) => Err(fault(kind, pos)),
                Ok(members) => if members.len() == 0 {
                    Err(fault(ParseErrorKind::EmptyDeletion, pos))
                } else {
                    match with_deletion(clauses, proof_start, members) {
                        Err(kind) => Err(fault(kind, pos)),
                        Ok(next) => proof_from(
                            lines,
                            pos + 1,
                            semantics,
                            number_of_arguments,
                            proof_start,
                            next,
                        ),
                    }
                },
            }
        }
    } else {
        match semantics.rule(lines[pos]) {
            None => Err(fault(ParseErrorKind::MalformedClause, pos)),
            Some((start, verifier)) => match clause_of(
                lines[pos].subrange(start as int, lines[pos].len() as int),
                number_of_arguments,
            ) {
                Err(kind) => Err(fault(kind, pos)),
                Ok(members) => if members.len() == 0 {
                    if first_content(lines, pos + 1) >= lines.len() {
                        Ok(clauses)
                    } else {
                        Err(
                            fault(
                                ParseErrorKind::MissingEmptyClause,
                                first_content(lines, pos + 1),
                            ),
                        )
                    }
                } else {
                    proof_from(
                        lines,
                        pos + 1,
                        semantics,
                        number_of_arguments,
                        proof_start,
                        clauses.push(proof_clause(members, verifier)),
                    )
                },
            },
        }
    }
}

/// What each clause is.
pub open spec fn models_of(clauses: Seq<ClauseBase>) -> Seq<ClauseModel> {
    Seq::new(clauses.len(), |i: int| clauses[i].model())
}

/// The members of a clause: at least one, all below the number of arguments,
/// no argument twice.
pub open spec fn clause_shaped(members: Seq<(usize, bool)>, number_of_arguments: usize) -> bool {
    &&& members.len() >= 1
    &&& distinct_arguments(members)
    &&& arguments_below(members, number_of_arguments as nat)
}

/// Two clauses without a repeated argument hold the same literals if they are
/// equally long and each literal of the first is one of the second.
pub proof fn lemma_same_literals(first: Seq<(usize, bool)>, second: Seq<(usize, bool)>)
    requires
        distinct_arguments(first),
        distinct_arguments(second),
        first.len() == second.len(),
        forall|i: int| 0 <= i < first.len() ==> second.contains(#[trigger] first[i]),
    ensures
        same_literals(first, second),
    decreases first.len(),
{
    broadcast use vstd::seq_lib::group_to_multiset_ensures;

    if first.len() == 0 {
        assert(first =~= second);
    } else {
        let literal = first.last();
        let j = choose|j: int| 0 <= j < second.len() && second[j] == literal;
        let shorter = first.drop_last();
        let rest = second.remove(j);
        assert forall|i: int| 0 <= i < shorter.len() implies rest.contains(
            #[trigger] shorter[i],
        ) by {
            assert(shorter[i] == first[i]);
            let m = choose|m: int| 0 <= m < second.len() && second[m] == first[i];
            assert(first[i].0 != first[first.len() - 1].0);
            assert(m != j);
            if m < j {
                assert(rest[m] == second[m]);
            } else {
                assert(rest[m - 1] == second[m]);
            }
        }
        assert forall|a: int, b: int| 0 <= a < b < rest.len() implies (#[trigger] rest[a]).0 != (
        #[trigger] rest[b]).0 by {
            let a_before = if a < j {
                a
            } else {
                a + 1
            };
            let b_before = if b < j {
                b
            } else {
                b + 1
            };
            assert(rest[a] == second[a_before] && rest[b] == second[b_before]);
        }
        lemma_same_literals(shorter, rest);
        assert(first =~= shorter.push(literal));
        assert(first.to_multiset() =~= shorter.to_multiset().insert(literal));
        assert(rest.to_multiset() =~= second.to_multiset().remove(literal));
        assert(second.to_multiset().count(literal) > 0);
        assert(second.to_multiset() =~= rest.to_multiset().insert(literal));
    }
}

/// Clauses that hold the same literals are equally long, and each literal of
/// one is a literal of the other.
pub proof fn lemma_same_literals_shared(first: Seq<(usize, bool)>, second: Seq<(usize, bool)>)
    requires
        same_literals(first, second),
    ensures
        first.len() == second.len(),
        forall|i: int| 0 <= i < first.len() ==> second.contains(#[trigger] first[i]),
{
    broadcast use vstd::seq_lib::group_to_multiset_ensures;

    assert(first.to_multiset().len() == first.len());
    assert(second.to_multiset().len() == second.len());
    assert forall|i: int| 0 <= i < first.len() implies second.contains(#[trigger] first[i]) by {
        assert(first.contains(first[i]));
        assert(first.to_multiset().count(first[i]) > 0);
    }
}

/// The earliest undeleted clause at or behind `from` that holds the given
/// literals, given that clause `k` is one and that none lies before `from`.
proof fn earliest_live_match_from(
    clauses: Seq<ClauseModel>,
    proof_start: int,
    members: Seq<(usize, bool)>,
    from: int,
    k: int,
) -> (target: int)
    requires
        from <= k,
        is_live_match(clauses, proof_start, members, k),
        forall|j: int| j < from ==> !is_live_match(clauses, proof_start, members, j),
    ensures
        target <= k,
        is_earliest_live_match(clauses, proof_start, members, target),
    decreases k - from,
{
    if is_live_match(clauses, proof_start, members, from) {
        from
    } else {
        earliest_live_match_from(clauses, proof_start, members, from + 1, k)
    }
}

/// A deletion whose literals several undeleted clauses of the proof hold
/// deletes the earliest of them: where clause `k` is such a clause, the
/// deletion succeeds, its target is an undeleted clause with these literals
/// at or before `k` with no other such clause before it, and the target alone
/// changes, to be deleted from the index of the next clause on.
pub proof fn lemma_deletion_takes_earliest(
    clauses: Seq<ClauseModel>,
    proof_start: int,
    members: Seq<(usize, bool)>,
    k: int,
)
    requires
        is_live_match(clauses, proof_start, members, k),
    ensures
        deletion_target(clauses, proof_start, members) matches Some(target) && {
            &&& target <= k
            &&& is_live_match(clauses, proof_start, members, target)
            &&& forall|j: int| is_live_match(clauses, proof_start, members, j) ==> target <= j
            &&& with_deletion(clauses, proof_start, members) == Ok::<
                Seq<ClauseModel>,
                ParseErrorKind,
            >(clauses.update(target, deleted(clauses[target], clauses.len() as usize)))
        },
{
    let earliest = earliest_live_match_from(clauses, proof_start, members, proof_start, k);
    let target = choose|t: int| is_earliest_live_match(clauses, proof_start, members, t);
    assert(is_earliest_live_match(clauses, proof_start, members, target));
    assert(target <= earliest);
}

/// A deletion leaves a clause as it is that has been deleted before.
pub proof fn lemma_deletion_keeps_deleted(
    clauses: Seq<ClauseModel>,
    proof_start: int,
    members: Seq<(usize, bool)>,
    i: int,
)
    requires
        0 <= proof_start,
        0 <= i < clauses.len(),
        clauses[i].deleted_at is Some,
        with_deletion(clauses, proof_start, members) is Ok,
    ensures
        with_deletion(clauses, proof_start, members)->Ok_0[i] == clauses[i],
{
    let target = choose|k: int| is_earliest_live_match(clauses, proof_start, members, k);
    assert(is_earliest_live_match(clauses, proof_start, members, target));
    assert(target != i);
}

/// Tells whether the clause holds the literals that the marks stand for.
pub fn holds_marked(candidate: &ClauseBase, marks: &Vec<u8>, count: usize) -> (same: bool)
    requires
        distinct_arguments(candidate.spec_members()),
        arguments_below(candidate.spec_members(), marks@.len()),
    ensures
        forall|members: Seq<(usize, bool)>|
            marks_match(marks@, members) && distinct_arguments(members) && members.len() == count
                ==> same == #[trigger] same_literals(candidate.spec_members(), members),
{
    let literals = candidate.get_members();
    if literals.len() != count {
        proof {
            assert forall|members: Seq<(usize, bool)>|
                marks_match(marks@, members) && distinct_arguments(members) && members.len()
                    == count implies !#[trigger] same_literals(literals@, members) by {
                if same_literals(literals@, members) {
                    lemma_same_literals_shared(literals@, members);
                }
            }
        }
        return false;
    }
    let mut position: usize = 0;
    while position < literals.len()
        invariant
            position <= literals@.len(),
            literals@ == candidate.spec_members(),
            literals@.len() == count,
            distinct_arguments(literals@),
            arguments_below(literals@, marks@.len()),
            forall|i: int|
                0 <= i < position ==> marks@[(#[trigger] literals@[i]).0 as int] == mark_of(
                    literals@[i].1,
                ),
        decreases literals@.len() - position,
    {
        let (argument, sign) = literals[position];
        let mark = marks[argument];
        if (sign && mark != POSITIVE) || (!sign && mark != NEGATIVE) {
            proof {
                assert forall|members: Seq<(usize, bool)>|
                    marks_match(marks@, members) && distinct_arguments(members) && members.len()
                        == count implies !#[trigger] same_literals(literals@, members) by {
                    if same_literals(literals@, members) {
                        lemma_same_literals_shared(literals@, members);
                        let literal = literals@[position as int];
                        assert(members.contains(literal));
                        let at = choose|at: int| 0 <= at < members.len() && members[at] == literal;
                        assert(members[at].0 == argument);
                        assert(has_argument(members, argument));
                        let other = (argument, mark == POSITIVE);
                        assert(members.contains(other));
                        let there = choose|there: int|
                            0 <= there < members.len() && members[there] == other;
                        assert(there == at);
                    }
                }
            }
            return false;
        }
        position += 1;
    }
    proof {
        assert forall|members: Seq<(usize, bool)>|
            marks_match(marks@, members) && distinct_arguments(members) && members.len()
                == count implies #[trigger] same_literals(literals@, members) by {
            assert forall|i: int| 0 <= i < literals@.len() implies members.contains(
                #[trigger] literals@[i],
            ) by {
                let argument = literals@[i].0;
                assert(marks@[argument as int] != ABSENT);
            }
            lemma_same_literals(literals@, members);
        }
    }
    true
}

/// What a clause of the proof is besides its members: it bears its index
/// and has a rule.
pub open spec fn proof_clauses_stored(
    clauses: Seq<ClauseBase>,
    proof_start: int,
    number_of_arguments: usize,
) -> bool {
    forall|i: int|
        proof_start <= i < clauses.len() ==> (#[trigger] clauses[i]).spec_index() == i
            && clauses[i].spec_verifier() is Some && clause_shaped(
            clauses[i].spec_members(),
            number_of_arguments,
        )
}

/// Deletes the earliest clause of the proof that holds the marked literals
/// and has not been deleted. The index tells where to look for it.
#[verifier::loop_isolation(false)]
pub fn delete_clause(
    clauses: &mut Vec<ClauseBase>,
    proof_start: usize,
    number_of_arguments: usize,
    marks: &Vec<u8>,
    deletion: &ClauseBase,
    index: &HashMap<u64, Vec<usize>>,
) -> (result: Result<(), ParseErrorKind>)
    requires
        proof_start <= old(clauses)@.len(),
        marks@.len() == number_of_arguments,
        marks_match(marks@, deletion.spec_members()),
        distinct_arguments(deletion.spec_members()),
        proof_clauses_stored(old(clauses)@, proof_start as int, number_of_arguments),
        indexed(index@, old(clauses)@, proof_start as int),
    ensures
        final(clauses)@.len() == old(clauses)@.len(),
        match with_deletion(
            models_of(old(clauses)@),
            proof_start as int,
            deletion.spec_members(),
        ) {
            Err(kind) => result == Err::<(), ParseErrorKind>(kind),
            Ok(next) => result is Ok && models_of(final(clauses)@) == next,
        },
        proof_clauses_stored(final(clauses)@, proof_start as int, number_of_arguments),
        indexed(index@, final(clauses)@, proof_start as int),
        forall|i: int| 0 <= i < proof_start ==> final(clauses)@[i] == old(clauses)@[i],
        forall|i: int|
            0 <= i < old(clauses)@.len() ==> (#[trigger] final(clauses)@[i]).spec_members()
                == old(clauses)@[i].spec_members(),
{
    broadcast use vstd::std_specs::hash::group_hash_axioms;

    let ghost before = clauses@;
    let ghost models = models_of(before);
    let ghost members = deletion.spec_members();
    let count = deletion.get_number_of_members();
    let total = clauses.len();
    let key = clause_key(deletion);
    proof {
        assert forall|j: int| is_match(models, proof_start as int, members, j) implies index@.contains_key(
            key,
        ) && index@[key]@.contains(j as usize) by {
            assert(models[j] == before[j].model());
            lemma_same_key(before[j].spec_members(), members);
        }
    }
    let listed = match index.get(&key) {
        Some(listed) => listed,
        None => {
            return Err(ParseErrorKind::UnknownDeletion);
        },
    };
    let mut found = false;
    let mut position: usize = 0;
    while position < listed.len()
        invariant
            position <= listed@.len(),
            listed@ == index@[key]@,
            total == clauses@.len(),
            clauses@ == before,
            forall|i: int|
                0 <= i < position ==> !is_live_match(
                    models,
                    proof_start as int,
                    members,
                    (#[trigger] listed@[i]) as int,
                ),
            found == exists|i: int|
                0 <= i < position && is_match(
                    models,
                    proof_start as int,
                    members,
                    (#[trigger] listed@[i]) as int,
                ),
        decreases listed@.len() - position,
    {
        let candidate = listed[position];
        assert(models[candidate as int] == before[candidate as int].model());
        if holds_marked(&clauses[candidate], marks, count) {
            assert(same_literals(before[candidate as int].spec_members(), members));
            assert(is_match(models, proof_start as int, members, candidate as int));
            if clauses[candidate].deleted_at().is_none() {
                clauses[candidate].set_deleted_at(total);
                proof {
                    let k = candidate as int;
                    assert forall|j: int|
                        is_live_match(models, proof_start as int, members, j) implies k <= j by {
                        if j < k {
                            let at = choose|at: int|
                                0 <= at < listed@.len() && listed@[at] == j as usize;
                            assert(listed@[at] < listed@[position as int]);
                            assert(at < position);
                        }
                    }
                    assert(is_earliest_live_match(models, proof_start as int, members, k));
                    let target = choose|k: int|
                        is_earliest_live_match(models, proof_start as int, members, k);
                    assert(target == k);
                    assert(models_of(clauses@) =~= models.update(k, deleted(models[k], total)));
                    lemma_index_carries_over(index@, before, clauses@, proof_start as int);
                }
                return Ok(());
            }
            found = true;
        } else {
            assert(!same_literals(before[candidate as int].spec_members(), members));
            proof {
                if found {
                    let i = choose|i: int|
                        0 <= i < position && is_match(
                            models,
                            proof_start as int,
                            members,
                            (#[trigger] listed@[i]) as int,
                        );
                    assert(0 <= i < position + 1 && is_match(
                        models,
                        proof_start as int,
                        members,
                        listed@[i] as int,
                    ));
                }
                if exists|i: int|
                    0 <= i < position + 1 && is_match(
                        models,
                        proof_start as int,
                        members,
                        (#[trigger] listed@[i]) as int,
                    ) {
                    let i = choose|i: int|
                        0 <= i < position + 1 && is_match(
                            models,
                            proof_start as int,
                            members,
                            (#[trigger] listed@[i]) as int,
                        );
                    assert(i != position as int);
                }
            }
        }
        position += 1;
    }
    proof {
        assert forall|k: int| !is_earliest_live_match(
            models,
            proof_start as int,
            members,
            k,
        ) by {
            if is_earliest_live_match(models, proof_start as int, members, k) {
                let at = choose|at: int| 0 <= at < listed@.len() && listed@[at] == k as usize;
                assert(!is_live_match(models, proof_start as int, members, listed@[at] as int));
            }
        }
        if found {
            let i = choose|i: int|
                0 <= i < position && is_match(
                    models,
                    proof_start as int,
                    members,
                    (#[trigger] listed@[i]) as int,
                );
            assert(is_match(models, proof_start as int, members, listed@[i] as int));
        } else {
            assert forall|k: int| !is_match(models, proof_start as int, members, k) by {
                if is_match(models, proof_start as int, members, k) {
                    let at = choose|at: int| 0 <= at < listed@.len() && listed@[at] == k as usize;
                    assert(is_match(models, proof_start as int, members, listed@[at] as int));
                }
            }
        }
    }
    if found {
        Err(ParseErrorKind::AlreadyDeleted)
    } else {
        Err(ParseErrorKind::UnknownDeletion)
    }
}

} // verus!
