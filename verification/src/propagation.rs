//! Unit propagation over clauses with two watched members: what the values
//! of the arguments make of a literal and of a clause, where a watch moves
//! to, and what a clause propagates.

use crate::clause_base::{distinct_arguments, ClauseModel};
use vstd::prelude::*;

verus! {

/// The argument of the literal has the literal's sign as its value.
pub open spec fn satisfied_by(assignment: Map<usize, bool>, literal: (usize, bool)) -> bool {
    assignment.contains_key(literal.0) && assignment[literal.0] == literal.1
}

/// The argument of the literal has the other sign as its value.
pub open spec fn falsified_by(assignment: Map<usize, bool>, literal: (usize, bool)) -> bool {
    assignment.contains_key(literal.0) && assignment[literal.0] != literal.1
}

/// The argument of the literal has no value.
pub open spec fn open_in(assignment: Map<usize, bool>, literal: (usize, bool)) -> bool {
    !assignment.contains_key(literal.0)
}

/// Some member of the clause is satisfied.
pub open spec fn clause_satisfied(assignment: Map<usize, bool>, members: Seq<(usize, bool)>) -> bool {
    exists|i: int| 0 <= i < members.len() && satisfied_by(assignment, #[trigger] members[i])
}

/// The clause neither propagates nor conflicts: a member is satisfied, or
/// two members have no value.
pub open spec fn quiet(assignment: Map<usize, bool>, members: Seq<(usize, bool)>) -> bool {
    clause_satisfied(assignment, members) || exists|i: int, j: int|
        0 <= i < j < members.len() && open_in(assignment, #[trigger] members[i]) && open_in(
            assignment,
            #[trigger] members[j],
        )
}

/// A clause with this deletion point can be seen from the verification
/// index: it is not deleted, or deleted only behind the index.
pub open spec fn not_deleted_for(deleted_at: Option<usize>, verification_index: int) -> bool {
    match deleted_at {
        Some(deletion_index) => deletion_index > verification_index,
        None => true,
    }
}

/// The clause with the given index takes part in a check at the verification
/// index: it comes before the index and can be seen from it.
pub open spec fn visible_at(clause: ClauseModel, index: int, verification_index: int) -> bool {
    index < verification_index && not_deleted_for(clause.deleted_at, verification_index)
}

/// Every clause that takes part is quiet: unit propagation has nothing left
/// to do and has met no conflict.
pub open spec fn closed_under_propagation(
    assignment: Map<usize, bool>,
    clauses: Seq<ClauseModel>,
    verification_index: int,
) -> bool {
    forall|c: int|
        0 <= c < clauses.len() && visible_at(#[trigger] clauses[c], c, verification_index) ==> quiet(
            assignment,
            clauses[c].members,
        )
}

/// Every one of the literals is satisfied.
pub open spec fn holds_all(assignment: Map<usize, bool>, literals: Seq<(usize, bool)>) -> bool {
    forall|i: int| 0 <= i < literals.len() ==> satisfied_by(assignment, #[trigger] literals[i])
}

/// The assignment satisfies the assumptions and leaves unit propagation
/// nothing to do.
pub open spec fn withstands(
    assignment: Map<usize, bool>,
    clauses: Seq<ClauseModel>,
    verification_index: int,
    assumptions: Seq<(usize, bool)>,
) -> bool {
    holds_all(assignment, assumptions) && closed_under_propagation(
        assignment,
        clauses,
        verification_index,
    )
}

/// Unit propagation from the assumptions, over the clauses that take part at
/// the verification index, ends in a conflict: no assignment satisfies the
/// assumptions and leaves every such clause quiet.
pub open spec fn refuted(
    clauses: Seq<ClauseModel>,
    verification_index: int,
    assumptions: Seq<(usize, bool)>,
) -> bool {
    forall|assignment: Map<usize, bool>|
        !#[trigger] withstands(assignment, clauses, verification_index, assumptions)
}

/// A change of a watch: the position that it moves to, the literal that it
/// leaves and the literal that it moves to.
pub type WatchUpdate = (usize, (usize, bool), (usize, bool));

/// What the search for another member to watch ends in.
pub enum WatchUpdateResult {
    /// A member without a value: the watch moves there.
    Success(WatchUpdate),
    /// A satisfied member: the clause needs no watch.
    AlreadySatisfied,
    /// Neither: every other member is falsified.
    Failed,
}

/// The position that lies `steps` behind `start`, going round a clause of
/// `count` members.
pub open spec fn position_after(start: int, steps: int, count: int) -> int {
    if start + steps < count {
        start + steps
    } else {
        start + steps - count
    }
}

/// The search for another member to watch, from `steps` behind `start` on
/// and once round the clause: the first member, the other watch left out,
/// that is not falsified ends it.
pub open spec fn replacement_from(
    members: Seq<(usize, bool)>,
    assignment: Map<usize, bool>,
    start: int,
    other: int,
    steps: int,
) -> WatchUpdateResult
    decreases members.len() - steps,
{
    let position = position_after(start, steps, members.len() as int);
    if steps >= members.len() {
        WatchUpdateResult::Failed
    } else if position == other {
        replacement_from(members, assignment, start, other, steps + 1)
    } else if satisfied_by(assignment, members[position]) {
        WatchUpdateResult::AlreadySatisfied
    } else if open_in(assignment, members[position]) {
        WatchUpdateResult::Success((position as usize, members[start], members[position]))
    } else {
        replacement_from(members, assignment, start, other, steps + 1)
    }
}

/// The search for another member to watch in place of the one at `start`.
pub open spec fn replacement(
    members: Seq<(usize, bool)>,
    assignment: Map<usize, bool>,
    start: int,
    other: int,
) -> WatchUpdateResult {
    replacement_from(members, assignment, start, other, 1)
}

/// What the check of a clause gives: the literal that it propagates, and the
/// changes of its first and of its second watch.
pub type Propagation = (Option<(usize, bool)>, Option<WatchUpdate>, Option<WatchUpdate>);

/// The search for a falsified watch; none for a watch without a value.
pub open spec fn watch_move(
    members: Seq<(usize, bool)>,
    assignment: Map<usize, bool>,
    watch: int,
    other: int,
) -> Option<WatchUpdateResult> {
    if open_in(assignment, members[watch]) {
        None
    } else {
        Some(replacement(members, assignment, watch, other))
    }
}

/// The change that a search makes.
pub open spec fn update_of(found: Option<WatchUpdateResult>) -> Option<WatchUpdate> {
    match found {
        Some(WatchUpdateResult::Success(update)) => Some(update),
        _ => None,
    }
}

/// The position of a watch after a change.
pub open spec fn moved_to(watch: usize, update: Option<WatchUpdate>) -> usize {
    match update {
        Some(update) => update.0,
        None => watch,
    }
}

/// The check of a clause under the values of the arguments.
///
/// A clause of one member propagates that member. A clause with a satisfied
/// watch propagates nothing. Else each falsified watch looks for another
/// member, the first watch first: where the search meets a satisfied member,
/// the clause propagates nothing; where it fails, the clause propagates the
/// literal of the other watch.
pub open spec fn propagation(
    members: Seq<(usize, bool)>,
    assignment: Map<usize, bool>,
    watches: (usize, usize),
) -> Propagation {
    let first = members[watches.0 as int];
    let second = members[watches.1 as int];
    if members.len() == 1 {
        (Some(members[0]), None, None)
    } else if satisfied_by(assignment, first) || satisfied_by(assignment, second) {
        (None, None, None)
    } else {
        let first_move = watch_move(members, assignment, watches.0 as int, watches.1 as int);
        match first_move {
            Some(WatchUpdateResult::AlreadySatisfied) => (None, None, None),
            Some(WatchUpdateResult::Failed) => (Some(second), None, None),
            _ => {
                let first_update = update_of(first_move);
                let first_at = moved_to(watches.0, first_update);
                let second_move = watch_move(
                    members,
                    assignment,
                    watches.1 as int,
                    first_at as int,
                );
                match second_move {
                    Some(WatchUpdateResult::Failed) => (
                        Some(members[first_at as int]),
                        first_update,
                        None,
                    ),
                    _ => (None, first_update, update_of(second_move)),
                }
            },
        }
    }
}

/// The watches of a clause after its check.
pub open spec fn watches_after(watches: (usize, usize), outcome: Propagation) -> (usize, usize) {
    (moved_to(watches.0, outcome.1), moved_to(watches.1, outcome.2))
}

/// The watches lie on two members of the clause, or both on the one member.
pub open spec fn watches_fit(members: Seq<(usize, bool)>, watches: (usize, usize)) -> bool {
    &&& watches.0 < members.len()
    &&& watches.1 < members.len()
    &&& members.len() >= 2 ==> watches.0 != watches.1
}

/// The clause is calm: a member is satisfied, or both watches lie on members
/// without a value.
pub open spec fn calm(
    members: Seq<(usize, bool)>,
    assignment: Map<usize, bool>,
    watches: (usize, usize),
) -> bool {
    clause_satisfied(assignment, members) || (members.len() >= 2 && open_in(
        assignment,
        members[watches.0 as int],
    ) && open_in(assignment, members[watches.1 as int]))
}

/// What the values of the arguments make of the two watches of a clause:
/// a member of the clause is satisfied, or both watched members have no
/// value, or one has none and the other is falsified, or both are falsified.
pub open spec fn two_watch_invariant(
    members: Seq<(usize, bool)>,
    assignment: Map<usize, bool>,
    watches: (usize, usize),
) -> bool {
    let first = members[watches.0 as int];
    let second = members[watches.1 as int];
    ||| clause_satisfied(assignment, members)
    ||| open_in(assignment, first) && open_in(assignment, second)
    ||| open_in(assignment, first) && falsified_by(assignment, second)
    ||| falsified_by(assignment, first) && open_in(assignment, second)
    ||| falsified_by(assignment, first) && falsified_by(assignment, second)
}

/// Watches that lie on members of their clause keep the two-watch
/// invariant, whatever values the arguments have.
pub proof fn lemma_two_watch_invariant(
    members: Seq<(usize, bool)>,
    assignment: Map<usize, bool>,
    watches: (usize, usize),
)
    requires
        watches_fit(members, watches),
    ensures
        two_watch_invariant(members, assignment, watches),
{
    let first = members[watches.0 as int];
    let second = members[watches.1 as int];
    if satisfied_by(assignment, first) || satisfied_by(assignment, second) {
        assert(clause_satisfied(assignment, members));
    }
}

/// The literal is a member and every other member is falsified.
pub open spec fn forced_by(
    members: Seq<(usize, bool)>,
    assignment: Map<usize, bool>,
    literal: (usize, bool),
) -> bool {
    &&& members.contains(literal)
    &&& forall|i: int|
        0 <= i < members.len() && #[trigger] members[i] != literal ==> falsified_by(
            assignment,
            members[i],
        )
}

/// What the search for another member to watch finds.
pub proof fn lemma_replacement(
    members: Seq<(usize, bool)>,
    assignment: Map<usize, bool>,
    start: int,
    other: int,
    steps: int,
)
    requires
        members.len() <= usize::MAX,
        0 <= start < members.len(),
        0 <= other < members.len(),
        1 <= steps <= members.len(),
        forall|k: int|
            1 <= k < steps ==> position_after(start, k, members.len() as int) == other
                || falsified_by(
                assignment,
                #[trigger] members[position_after(start, k, members.len() as int)],
            ),
    ensures
        match replacement_from(members, assignment, start, other, steps) {
            WatchUpdateResult::Success((position, from, to)) => {
                &&& position < members.len()
                &&& position != start
                &&& position != other
                &&& from == members[start]
                &&& to == members[position as int]
                &&& open_in(assignment, to)
            },
            WatchUpdateResult::AlreadySatisfied => clause_satisfied(assignment, members),
            WatchUpdateResult::Failed => forall|i: int|
                0 <= i < members.len() && i != start && i != other ==> falsified_by(
                    assignment,
                    #[trigger] members[i],
                ),
        },
    decreases members.len() - steps,
{
    let count = members.len() as int;
    let position = position_after(start, steps, count);
    if steps >= count {
        assert forall|i: int| 0 <= i < count && i != start && i != other implies falsified_by(
            assignment,
            #[trigger] members[i],
        ) by {
            let k = if i > start {
                i - start
            } else {
                i - start + count
            };
            assert(position_after(start, k, count) == i);
        }
    } else if position == other {
        lemma_replacement(members, assignment, start, other, steps + 1);
    } else if satisfied_by(assignment, members[position]) {
    } else if open_in(assignment, members[position]) {
    } else {
        lemma_replacement(members, assignment, start, other, steps + 1);
    }
}

/// What the check of a clause gives: the watches fit still; a propagated
/// literal is forced, and not satisfied unless it is the clause's only
/// member; a clause that propagates nothing is calm.
pub proof fn lemma_propagation(
    members: Seq<(usize, bool)>,
    assignment: Map<usize, bool>,
    watches: (usize, usize),
)
    requires
        1 <= members.len() <= usize::MAX,
        distinct_arguments(members),
        watches_fit(members, watches),
    ensures
        ({
            let outcome = propagation(members, assignment, watches);
            let after = watches_after(watches, outcome);
            &&& watches_fit(members, after)
            &&& outcome.1 matches Some((position, from, to)) ==> from == members[watches.0 as int]
                && to == members[position as int] && position < members.len() && position
                != watches.0 && position != watches.1
            &&& outcome.2 matches Some((position, from, to)) ==> from == members[watches.1 as int]
                && to == members[position as int] && position < members.len() && position
                != watches.1 && position != after.0
            &&& outcome.0 matches Some(literal) ==> forced_by(members, assignment, literal) && (
            members.len() >= 2 ==> !satisfied_by(assignment, literal))
            &&& outcome.0 is None ==> calm(members, assignment, after)
        }),
{
    let count = members.len() as int;
    let first = members[watches.0 as int];
    let second = members[watches.1 as int];
    if count == 1 {
        assert(members[0] == members[0]);
    } else if satisfied_by(assignment, first) || satisfied_by(assignment, second) {
    } else {
        let first_move = watch_move(members, assignment, watches.0 as int, watches.1 as int);
        if first_move is Some {
            lemma_replacement(members, assignment, watches.0 as int, watches.1 as int, 1);
        }
        match first_move {
            Some(WatchUpdateResult::AlreadySatisfied) => {},
            Some(WatchUpdateResult::Failed) => {
                assert forall|i: int|
                    0 <= i < count && #[trigger] members[i] != second implies falsified_by(
                    assignment,
                    members[i],
                ) by {
                    if i == watches.0 {
                    } else {
                        assert(i != watches.1);
                    }
                }
            },
            _ => {
                let first_update = update_of(first_move);
                let first_at = moved_to(watches.0, first_update);
                let second_move = watch_move(
                    members,
                    assignment,
                    watches.1 as int,
                    first_at as int,
                );
                if second_move is Some {
                    lemma_replacement(members, assignment, watches.1 as int, first_at as int, 1);
                }
                match second_move {
                    Some(WatchUpdateResult::Failed) => {
                        let literal = members[first_at as int];
                        assert forall|i: int|
                            0 <= i < count && #[trigger] members[i] != literal implies falsified_by(
                            assignment,
                            members[i],
                        ) by {
                            if i == watches.1 {
                            } else {
                                assert(i != first_at);
                            }
                        }
                    },
                    _ => {},
                }
            },
        }
    }
}

/// A calm clause is quiet.
pub proof fn lemma_calm_is_quiet(
    members: Seq<(usize, bool)>,
    assignment: Map<usize, bool>,
    watches: (usize, usize),
)
    requires
        watches_fit(members, watches),
        calm(members, assignment, watches),
    ensures
        quiet(assignment, members),
{
    if !clause_satisfied(assignment, members) {
        let i = if watches.0 < watches.1 {
            watches.0 as int
        } else {
            watches.1 as int
        };
        let j = if watches.0 < watches.1 {
            watches.1 as int
        } else {
            watches.0 as int
        };
        assert(0 <= i < j < members.len() && open_in(assignment, members[i]) && open_in(
            assignment,
            members[j],
        ));
    }
}

/// An assignment under which a clause is quiet satisfies a literal that the
/// clause forces under a part of it.
pub proof fn lemma_forced_holds(
    members: Seq<(usize, bool)>,
    part: Map<usize, bool>,
    whole: Map<usize, bool>,
    literal: (usize, bool),
)
    requires
        distinct_arguments(members),
        forced_by(members, part, literal),
        part.submap_of(whole),
        quiet(whole, members),
    ensures
        satisfied_by(whole, literal),
{
    assert forall|i: int| 0 <= i < members.len() && members[i] != literal implies falsified_by(
        whole,
        #[trigger] members[i],
    ) by {
        assert(falsified_by(part, members[i]));
        assert(part.dom().contains(members[i].0));
    }
    if clause_satisfied(whole, members) {
        let i = choose|i: int| 0 <= i < members.len() && satisfied_by(whole, #[trigger] members[i]);
        assert(members[i] == literal);
    } else {
        let (i, j) = choose|i: int, j: int|
            0 <= i < j < members.len() && open_in(whole, #[trigger] members[i]) && open_in(
                whole,
                #[trigger] members[j],
            );
        assert(members[i] == literal);
        assert(members[j] == literal);
    }
}

} // verus!
