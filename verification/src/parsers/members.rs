//! Collecting the members of a clause, each argument once.

use crate::clause_base::{arguments_below, distinct_arguments, has_argument, with_member};
use crate::clause_base::ClauseBase;
use vstd::prelude::*;

verus! {

/// The mark of an argument that is no member.
pub const ABSENT: u8 = 0;

/// The mark of an argument that is a member with negative sign.
pub const NEGATIVE: u8 = 1;

/// The mark of an argument that is a member with positive sign.
pub const POSITIVE: u8 = 2;

/// The mark of a member with the given sign.
pub open spec fn mark_of(sign: bool) -> u8 {
    if sign {
        POSITIVE
    } else {
        NEGATIVE
    }
}

/// The marks tell for each argument whether it is among the members, and
/// with which sign.
pub open spec fn marks_match(marks: Seq<u8>, members: Seq<(usize, bool)>) -> bool {
    &&& arguments_below(members, marks.len())
    &&& forall|a: usize|
        a < marks.len() ==> ((#[trigger] marks[a as int]) == ABSENT <==> !has_argument(members, a))
    &&& forall|a: usize|
        a < marks.len() && (#[trigger] marks[a as int]) != ABSENT ==> members.contains(
            (a, marks[a as int] == POSITIVE),
        ) && marks[a as int] <= POSITIVE
}

/// No argument is marked.
pub open spec fn unmarked(marks: Seq<u8>) -> bool {
    forall|a: int| 0 <= a < marks.len() ==> #[trigger] marks[a] == ABSENT
}

pub proof fn lemma_with_member_distinct(members: Seq<(usize, bool)>, argument: usize, sign: bool)
    requires
        distinct_arguments(members),
    ensures
        distinct_arguments(with_member(members, argument, sign)),
        has_argument(with_member(members, argument, sign), argument),
{
    let after = with_member(members, argument, sign);
    if !has_argument(members, argument) {
        assert(after[members.len() as int].0 == argument);
        assert forall|i: int, j: int| 0 <= i < j < after.len() implies (#[trigger] after[i]).0 != (
        #[trigger] after[j]).0 by {
            if j == members.len() {
                assert(members[i].0 != argument);
            } else {
                assert(after[i] == members[i] && after[j] == members[j]);
            }
        }
    }
}

/// No member is marked where no argument is.
pub proof fn lemma_unmarked_matches_empty(marks: Seq<u8>)
    requires
        unmarked(marks),
    ensures
        marks_match(marks, Seq::empty()),
{
}

/// Creates the marks of a clause without members.
pub fn new_marks(number_of_arguments: usize) -> (marks: Vec<u8>)
    ensures
        marks@.len() == number_of_arguments,
        unmarked(marks@),
{
    let mut marks: Vec<u8> = Vec::new();
    let mut count: usize = 0;
    while count < number_of_arguments
        invariant
            count <= number_of_arguments,
            marks@.len() == count,
            unmarked(marks@),
        decreases number_of_arguments - count,
    {
        marks.push(ABSENT);
        count += 1;
    }
    marks
}

/// Adds a literal to the clause unless the clause holds its argument.
pub fn add_member_once(clause: &mut ClauseBase, marks: &mut Vec<u8>, argument: usize, sign: bool)
    requires
        argument < old(marks)@.len(),
        marks_match(old(marks)@, old(clause).spec_members()),
    ensures
        final(clause).spec_members() == with_member(old(clause).spec_members(), argument, sign),
        final(clause).spec_index() == old(clause).spec_index(),
        final(clause).spec_verifier() == old(clause).spec_verifier(),
        final(clause).spec_deleted_at() == old(clause).spec_deleted_at(),
        final(marks)@.len() == old(marks)@.len(),
        marks_match(final(marks)@, final(clause).spec_members()),
{
    if marks[argument] == ABSENT {
        let ghost before = clause.spec_members();
        let ghost marks_before = marks@;
        clause.add_member(argument, sign);
        marks[argument] = if sign {
            POSITIVE
        } else {
            NEGATIVE
        };
        proof {
            let after = clause.spec_members();
            assert(after[before.len() as int] == (argument, sign));
            assert forall|a: usize| a < marks@.len() implies ((#[trigger] marks@[a as int]) == ABSENT
                <==> !has_argument(after, a)) by {
                if a != argument {
                    assert(marks@[a as int] == marks_before[a as int]);
                    if has_argument(before, a) {
                        let i = choose|i: int|
                            0 <= i < before.len() && (#[trigger] before[i]).0 == a;
                        assert(after[i].0 == a);
                    }
                    if has_argument(after, a) {
                        let i = choose|i: int| 0 <= i < after.len() && (#[trigger] after[i]).0 == a;
                        assert(before[i].0 == a);
                    }
                }
            }
            assert forall|a: usize|
                a < marks@.len() && (#[trigger] marks@[a as int]) != ABSENT implies after.contains(
                (a, marks@[a as int] == POSITIVE),
            ) && marks@[a as int] <= POSITIVE by {
                if a != argument {
                    assert(marks@[a as int] == marks_before[a as int]);
                    let member = (a, marks_before[a as int] == POSITIVE);
                    assert(before.contains(member));
                    let i = choose|i: int| 0 <= i < before.len() && before[i] == member;
                    assert(after[i] == member);
                }
            }
            assert forall|i: int| 0 <= i < after.len() implies (#[trigger] after[i]).0 < marks@.len() by {
                if i < before.len() {
                    assert(after[i] == before[i]);
                }
            }
        }
    }
}

/// Takes the marks of the clause's members away again.
pub fn clear_marks(clause: &ClauseBase, marks: &mut Vec<u8>)
    requires
        marks_match(old(marks)@, clause.spec_members()),
    ensures
        final(marks)@.len() == old(marks)@.len(),
        unmarked(final(marks)@),
{
    let members = clause.get_members();
    proof {
        assert forall|a: usize|
            a < marks@.len() && (#[trigger] marks@[a as int]) != ABSENT implies exists|j: int|
            0 <= j < members@.len() && (#[trigger] members@[j]).0 == a by {
            assert(has_argument(members@, a));
        }
    }
    let mut position: usize = 0;
    while position < members.len()
        invariant
            position <= members@.len(),
            marks@.len() == old(marks)@.len(),
            arguments_below(members@, marks@.len()),
            forall|a: usize|
                a < marks@.len() && (#[trigger] marks@[a as int]) != ABSENT ==> exists|j: int|
                    position <= j < members@.len() && (#[trigger] members@[j]).0 == a,
        decreases members@.len() - position,
    {
        let ghost marks_before = marks@;
        let (argument, _) = members[position];
        marks[argument] = ABSENT;
        proof {
            assert forall|a: usize|
                a < marks@.len() && (#[trigger] marks@[a as int]) != ABSENT implies exists|j: int|
                position + 1 <= j < members@.len() && (#[trigger] members@[j]).0 == a by {
                assert(marks_before[a as int] != ABSENT);
                let j = choose|j: int|
                    position <= j < members@.len() && (#[trigger] members@[j]).0 == a;
                assert(j != position);
            }
        }
        position += 1;
    }
    proof {
        assert forall|a: int| 0 <= a < marks@.len() implies #[trigger] marks@[a] == ABSENT by {
            assert(marks@.len() == marks.len());
            let index = a as usize;
            assert(marks@[index as int] == marks@[a]);
        }
    }
}

} // verus!
