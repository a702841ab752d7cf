//! The rules by which a clause of the proof is checked.

pub mod admissibility_verifier;
pub mod rup_verifier;
pub mod stability_verifier;
pub mod verification_helpers;
