//! The arguments of a framework.

use vstd::prelude::*;

verus! {

/// An argument of the framework, with the attacks that are aimed at it.
pub struct ArgumentBase {
    /// The index of the argument: its number in the input, less one.
    id: usize,
    /// The indices of the attacks of the framework on this argument, ascending.
    attacked_by: Vec<usize>,
}

impl ArgumentBase {
    pub closed spec fn spec_id(&self) -> usize {
        self.id
    }

    pub closed spec fn spec_attacked_by(&self) -> Seq<usize> {
        self.attacked_by@
    }

    pub fn new() -> (argument: ArgumentBase)
        ensures
            argument.spec_id() == 0,
            argument.spec_attacked_by() == Seq::<usize>::empty(),
    {
        ArgumentBase { id: 0, attacked_by: Vec::new() }
    }

    pub fn set_id(&mut self, id: usize)
        ensures
            final(self).spec_id() == id,
            final(self).spec_attacked_by() == old(self).spec_attacked_by(),
    {
        self.id = id;
    }

    pub fn get_id(&self) -> (id: usize)
        ensures
            id == self.spec_id(),
    {
        self.id
    }

    pub fn get_attacked_by(&self) -> (attacks: &Vec<usize>)
        ensures
            attacks@ == self.spec_attacked_by(),
    {
        &self.attacked_by
    }

    pub fn add_attacked_by(&mut self, attack_index: usize)
        ensures
            final(self).spec_id() == old(self).spec_id(),
            final(self).spec_attacked_by() == old(self).spec_attacked_by().push(attack_index),
    {
        self.attacked_by.push(attack_index);
    }
}

} // verus!
