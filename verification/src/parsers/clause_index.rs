//! Finding the clauses of the proof that hold given literals: the clauses
//! are listed under a key that depends on their literals only, not on the
//! order of these.

use crate::clause_base::ClauseBase;
use crate::parsers::proof_text::same_literals;
use std::collections::HashMap;
use vstd::prelude::*;

verus! {

/// The number that stands for a literal in a key.
pub open spec fn literal_code(literal: (usize, bool)) -> u64 {
    if literal.1 {
        literal.0 as u64
    } else {
        !(literal.0 as u64)
    }
}

/// The key of some literals together with one more literal.
pub open spec fn mixed(key: u64, literal: (usize, bool)) -> u64 {
    key ^ literal_code(literal)
}

/// The key of the members of a clause.
pub open spec fn key_of(members: Seq<(usize, bool)>) -> u64 {
    members.fold_left(0u64, |key: u64, literal: (usize, bool)| mixed(key, literal))
}

/// Clauses that hold the same literals have the same key.
pub proof fn lemma_same_key(first: Seq<(usize, bool)>, second: Seq<(usize, bool)>)
    requires
        same_literals(first, second),
    ensures
        key_of(first) == key_of(second),
{
    let mix = |key: u64, literal: (usize, bool)| mixed(key, literal);
    assert forall|x: (usize, bool), y: (usize, bool), v: u64| #[trigger]
        mix(mix(v, x), y) == mix(mix(v, y), x) by {
        let a = literal_code(x);
        let b = literal_code(y);
        assert((v ^ a) ^ b == (v ^ b) ^ a) by (bit_vector);
    }
    vstd::seq_lib::lemma_fold_left_permutation(first, second, mix, 0u64);
}

/// The index lists each clause of the proof under the key of its members,
/// and lists under each key clauses of the proof only, in ascending order.
pub open spec fn indexed(
    index: Map<u64, Vec<usize>>,
    clauses: Seq<ClauseBase>,
    proof_start: int,
) -> bool {
    &&& forall|c: int|
        proof_start <= c < clauses.len() ==> index.contains_key(
            key_of((#[trigger] clauses[c]).spec_members()),
        ) && index[key_of(clauses[c].spec_members())]@.contains(c as usize)
    &&& forall|key: u64, i: int|
        index.contains_key(key) && 0 <= i < index[key]@.len() ==> proof_start <= (
        #[trigger] index[key]@[i]) < clauses.len()
    &&& forall|key: u64, i: int, j: int|
        index.contains_key(key) && 0 <= i < j < index[key]@.len() ==> (#[trigger] index[key]@[i])
            < (#[trigger] index[key]@[j])
}

/// The index serves as well where the members of the clauses stay as they
/// are.
pub proof fn lemma_index_carries_over(
    index: Map<u64, Vec<usize>>,
    before: Seq<ClauseBase>,
    after: Seq<ClauseBase>,
    proof_start: int,
)
    requires
        0 <= proof_start,
        indexed(index, before, proof_start),
        before.len() == after.len(),
        forall|i: int|
            0 <= i < before.len() ==> (#[trigger] after[i]).spec_members()
                == before[i].spec_members(),
    ensures
        indexed(index, after, proof_start),
{
    assert forall|c: int| proof_start <= c < after.len() implies index.contains_key(
        key_of((#[trigger] after[c]).spec_members()),
    ) && index[key_of(after[c].spec_members())]@.contains(c as usize) by {
        assert(after[c].spec_members() == before[c].spec_members());
    }
}

/// Returns the key of the members of a clause.
pub fn clause_key(clause: &ClauseBase) -> (key: u64)
    ensures
        key == key_of(clause.spec_members()),
{
    let members = clause.get_members();
    let ghost mix = |key: u64, literal: (usize, bool)| mixed(key, literal);
    let mut key: u64 = 0;
    let mut position: usize = 0;
    while position < members.len()
        invariant
            position <= members@.len(),
            members@ == clause.spec_members(),
            mix == |key: u64, literal: (usize, bool)| mixed(key, literal),
            key == members@.subrange(0, position as int).fold_left(0u64, mix),
        decreases members@.len() - position,
    {
        let (argument, sign) = members[position];
        let code: u64 = if sign {
            argument as u64
        } else {
            !(argument as u64)
        };
        proof {
            let next = members@.subrange(0, position + 1);
            assert(next.drop_last() =~= members@.subrange(0, position as int));
            assert(next.last() == (argument, sign));
        }
        key = key ^ code;
        position += 1;
    }
    proof {
        assert(members@.subrange(0, position as int) =~= members@);
    }
    key
}

/// Lists the last clause under the key of its members.
pub fn record_clause(index: &mut HashMap<u64, Vec<usize>>, clauses: &Vec<ClauseBase>, proof_start: usize)
    requires
        proof_start < clauses@.len(),
        indexed(old(index)@, clauses@.drop_last(), proof_start as int),
    ensures
        indexed(final(index)@, clauses@, proof_start as int),
{
    broadcast use vstd::std_specs::hash::group_hash_axioms;

    let last = clauses.len() - 1;
    let key = clause_key(&clauses[last]);
    let ghost before = index@;
    let ghost earlier = clauses@.drop_last();
    let mut listed = match index.remove(&key) {
        Some(listed) => listed,
        None => Vec::new(),
    };
    let ghost so_far = listed@;
    listed.push(last);
    index.insert(key, listed);
    proof {
        let after = index@;
        assert(before.contains_key(key) ==> so_far == before[key]@);
        assert(!before.contains_key(key) ==> so_far.len() == 0);
        assert forall|i: int| 0 <= i < so_far.len() implies proof_start <= (#[trigger] so_far[i])
            < last by {
            assert(before[key]@[i] == so_far[i]);
        }
        assert forall|c: int| proof_start <= c < clauses@.len() implies after.contains_key(
            key_of((#[trigger] clauses@[c]).spec_members()),
        ) && after[key_of(clauses@[c].spec_members())]@.contains(c as usize) by {
            if c == last {
                assert(after[key]@[so_far.len() as int] == last);
            } else {
                assert(earlier[c] == clauses@[c]);
                let other = key_of(earlier[c].spec_members());
                assert(before.contains_key(other) && before[other]@.contains(c as usize));
                if other == key {
                    let i = choose|i: int| 0 <= i < so_far.len() && so_far[i] == c as usize;
                    assert(after[key]@[i] == c as usize);
                }
            }
        }
        assert forall|other: u64, i: int|
            after.contains_key(other) && 0 <= i < after[other]@.len() implies proof_start <= (
        #[trigger] after[other]@[i]) < clauses@.len() by {
            if other == key {
                if i < so_far.len() {
                    assert(after[key]@[i] == so_far[i]);
                }
            } else {
                assert(before[other]@[i] == after[other]@[i]);
            }
        }
        assert forall|other: u64, i: int, j: int|
            after.contains_key(other) && 0 <= i < j < after[other]@.len() implies (
        #[trigger] after[other]@[i]) < (#[trigger] after[other]@[j]) by {
            if other == key {
                assert(after[key]@[i] == so_far[i]);
                if j < so_far.len() {
                    assert(after[key]@[j] == so_far[j]);
                    assert(before[key]@[i] < before[key]@[j]);
                }
            } else {
                assert(before[other]@[i] < before[other]@[j]);
            }
        }
    }
}

} // verus!
