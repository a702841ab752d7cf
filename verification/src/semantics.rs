//! The semantics under which a proof is checked, and the rule that a proof
//! line claims for its clause.

use crate::text::{parse_unsigned, read_unsigned, SPACE};
use vstd::prelude::*;

verus! {

/// The first byte of a proof line that claims a witness rule.
pub const WITNESS_MARK: u8 = 105;

/// The semantics of the framework.
#[derive(Clone, Copy, Debug, PartialEq, Eq)]
pub enum Semantics {
    Admissible,
    Stable,
}

/// The rule by which a proof clause is checked.
#[derive(Clone, Copy, Debug, PartialEq, Eq)]
pub enum VerifierType {
    /// Reverse unit propagation.
    RUP,
    /// Admissibility witness, optionally for one given attack.
    Admissibility(Option<usize>),
    /// Stability witness.
    Stability,
}

/// The position of the first space at or behind `pos`, or the length of the
/// line where there is none.
pub open spec fn space_from(line: Seq<u8>, pos: int) -> int
    decreases line.len() - pos,
{
    if pos >= line.len() {
        line.len() as int
    } else if line[pos] == SPACE {
        pos
    } else {
        space_from(line, pos + 1)
    }
}

/// Where the clause starts in a proof line under stable semantics, and its
/// rule: `i ` announces a stability witness, any other line is a RUP clause.
pub open spec fn stable_rule(line: Seq<u8>) -> Option<(usize, VerifierType)> {
    if line.len() >= 2 && line[0] == WITNESS_MARK && line[1] == SPACE {
        Some((2usize, VerifierType::Stability))
    } else {
        Some((0usize, VerifierType::RUP))
    }
}

/// Where the clause starts in a proof line under admissible semantics, and
/// its rule. A line that starts with `i` is an admissibility witness: `i `
/// leaves the attack open, `i`, a number and a space name the attack. Such a
/// line without a space, or with anything but a number before it, has no
/// rule. Any other line is a RUP clause.
pub open spec fn admissible_rule(line: Seq<u8>) -> Option<(usize, VerifierType)> {
    let space = space_from(line, 0);
    if line.len() == 0 || line[0] != WITNESS_MARK {
        Some((0usize, VerifierType::RUP))
    } else if space >= line.len() {
        None
    } else if space == 1 {
        Some((2usize, VerifierType::Admissibility(None)))
    } else {
        match parse_unsigned(line.subrange(1, space)) {
            Some(attack) => Some(((space + 1) as usize, VerifierType::Admissibility(Some(attack)))),
            None => None,
        }
    }
}

impl Semantics {
    /// The rule of a proof line under these semantics.
    pub open spec fn rule(self, line: Seq<u8>) -> Option<(usize, VerifierType)> {
        match self {
            Semantics::Admissible => admissible_rule(line),
            Semantics::Stable => stable_rule(line),
        }
    }

    /// Returns the index at which the clause starts in the proof line, and
    /// the rule that the line claims for it.
    pub fn get_verifier(&self, line: &Vec<u8>) -> (rule: Option<(usize, VerifierType)>)
        ensures
            rule == self.rule(line@),
            rule matches Some((start, _)) ==> start <= line@.len(),
    {
        match self {
            Semantics::Admissible => Self::get_verifier_admissible(line),
            Semantics::Stable => Self::get_verifier_stable(line),
        }
    }

    pub fn get_verifier_stable(line: &Vec<u8>) -> (rule: Option<(usize, VerifierType)>)
        ensures
            rule == stable_rule(line@),
            rule matches Some((start, _)) ==> start <= line@.len(),
    {
        if line.len() >= 2 && line[0] == WITNESS_MARK && line[1] == SPACE {
            Some((2, VerifierType::Stability))
        } else {
            Some((0, VerifierType::RUP))
        }
    }

    pub fn get_verifier_admissible(line: &Vec<u8>) -> (rule: Option<(usize, VerifierType)>)
        ensures
            rule == admissible_rule(line@),
            rule matches Some((start, _)) ==> start <= line@.len(),
    {
        if line.len() == 0 || line[0] != WITNESS_MARK {
            return Some((0, VerifierType::RUP));
        }
        let mut space: usize = 0;
        while space < line.len() && line[space] != SPACE
            invariant
                space <= line.len(),
                space_from(line@, 0) == space_from(line@, space as int),
            decreases line.len() - space,
        {
            space += 1;
        }
        if space >= line.len() {
            None
        } else if space == 1 {
            Some((2, VerifierType::Admissibility(None)))
        } else {
            match read_unsigned(line, 1, space) {
                Some(attack) => Some((space + 1, VerifierType::Admissibility(Some(attack)))),
                None => None,
            }
        }
    }
}

} // verus!
