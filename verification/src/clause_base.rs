//! The clauses of an instance: the attacks of the framework and the clauses
//! of the proof.

use crate::semantics::VerifierType;
use std::sync::atomic::AtomicBool;
use std::sync::atomic::Ordering;
use vstd::prelude::*;

verus! {

/// Some member of the clause is on the argument.
pub open spec fn has_argument(members: Seq<(usize, bool)>, argument: usize) -> bool {
    exists|i: int| 0 <= i < members.len() && (#[trigger] members[i]).0 == argument
}

/// No argument occurs twice among the members.
pub open spec fn distinct_arguments(members: Seq<(usize, bool)>) -> bool {
    forall|i: int, j: int|
        0 <= i < j < members.len() ==> (#[trigger] members[i]).0 != (#[trigger] members[j]).0
}

/// Every member is on an argument below the bound.
pub open spec fn arguments_below(members: Seq<(usize, bool)>, bound: nat) -> bool {
    forall|i: int| 0 <= i < members.len() ==> (#[trigger] members[i]).0 < bound
}

/// The members with one more literal, unless its argument is among them.
pub open spec fn with_member(members: Seq<(usize, bool)>, argument: usize, sign: bool) -> Seq<
    (usize, bool),
> {
    if has_argument(members, argument) {
        members
    } else {
        members.push((argument, sign))
    }
}

/// What a clause is, apart from its shared flag.
pub struct ClauseModel {
    pub members: Seq<(usize, bool)>,
    pub verifier: Option<VerifierType>,
    pub deleted_at: Option<usize>,
}

/// A clause: an attack of the framework or a clause of the proof.
pub struct ClauseBase {
    /// The index of the clause.
    index: usize,
    /// The arguments of the clause, each with its sign.
    members: Vec<(usize, bool)>,
    /// The index of the clause from which on this clause counts as deleted.
    deleted_at: Option<usize>,
    /// The rule by which the clause is checked.
    verifier: Option<VerifierType>,
    /// Whether some check has used the clause. Shared by all workers, and
    /// only ever raised.
    used: AtomicBool,
}

impl ClauseBase {
    pub closed spec fn spec_index(&self) -> usize {
        self.index
    }

    pub closed spec fn spec_members(&self) -> Seq<(usize, bool)> {
        self.members@
    }

    pub closed spec fn spec_deleted_at(&self) -> Option<usize> {
        self.deleted_at
    }

    pub closed spec fn spec_verifier(&self) -> Option<VerifierType> {
        self.verifier
    }

    pub open spec fn model(&self) -> ClauseModel {
        ClauseModel {
            members: self.spec_members(),
            verifier: self.spec_verifier(),
            deleted_at: self.spec_deleted_at(),
        }
    }

    /// The members of a clause can be counted.
    pub proof fn lemma_members_bounded(&self)
        ensures
            self.spec_members().len() <= usize::MAX,
    {
        assert(self.members@.len() == self.members.len());
    }

    /// A clause without members, rule or deletion.
    pub fn new(index: usize) -> (clause: ClauseBase)
        ensures
            clause.spec_index() == index,
            clause.spec_members() == Seq::<(usize, bool)>::empty(),
            clause.spec_deleted_at() == None::<usize>,
            clause.spec_verifier() == None::<VerifierType>,
    {
        ClauseBase {
            index,
            members: Vec::new(),
            deleted_at: None,
            verifier: None,
            used: AtomicBool::new(false),
        }
    }

    /// Adds the argument with its sign behind the members of the clause.
    pub fn add_member(&mut self, argument: usize, sign: bool)
        ensures
            final(self).spec_members() == old(self).spec_members().push((argument, sign)),
            final(self).spec_index() == old(self).spec_index(),
            final(self).spec_deleted_at() == old(self).spec_deleted_at(),
            final(self).spec_verifier() == old(self).spec_verifier(),
    {
        self.members.push((argument, sign));
    }

    pub fn get_index(&self) -> (index: usize)
        ensures
            index == self.spec_index(),
    {
        self.index
    }

    pub fn set_verifier(&mut self, verifier: VerifierType)
        ensures
            final(self).spec_verifier() == Some(verifier),
            final(self).spec_members() == old(self).spec_members(),
            final(self).spec_index() == old(self).spec_index(),
            final(self).spec_deleted_at() == old(self).spec_deleted_at(),
    {
        self.verifier = Some(verifier);
    }

    pub fn get_verifier(&self) -> (verifier: &VerifierType)
        requires
            self.spec_verifier() is Some,
        ensures
            Some(*verifier) == self.spec_verifier(),
    {
        self.verifier.as_ref().unwrap()
    }

    pub fn set_deleted_at(&mut self, index: usize)
        ensures
            final(self).spec_deleted_at() == Some(index),
            final(self).spec_members() == old(self).spec_members(),
            final(self).spec_index() == old(self).spec_index(),
            final(self).spec_verifier() == old(self).spec_verifier(),
    {
        self.deleted_at = Some(index);
    }

    pub fn get_number_of_members(&self) -> (count: usize)
        ensures
            count == self.spec_members().len(),
    {
        self.members.len()
    }

    pub fn get_members(&self) -> (members: &Vec<(usize, bool)>)
        ensures
            members@ == self.spec_members(),
    {
        &self.members
    }

    pub fn get_member(&self, index: usize) -> (member: (usize, bool))
        requires
            index < self.spec_members().len(),
        ensures
            member == self.spec_members()[index as int],
    {
        self.members[index]
    }

    /// Reads the shared flag. Other workers may raise it at any time, so
    /// nothing is stated of the answer.
    pub fn is_used(&self) -> bool {
        self.used.load(Ordering::Acquire)
    }

    /// Raises the shared flag and tells whether this call was the one that
    /// raised it. Other workers may raise it at any time, so nothing is
    /// stated of the answer.
    pub fn set_used(&self) -> bool {
        !self.used.swap(true, Ordering::AcqRel)
    }

    pub fn deleted_at(&self) -> (deleted_at: Option<usize>)
        ensures
            deleted_at == self.spec_deleted_at(),
    {
        self.deleted_at
    }
}

} // verus!
