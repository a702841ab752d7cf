//! The text formats of the framework, the description, the required
//! arguments and the proof.

pub mod clause_index;
pub mod error;
pub mod framework;
pub mod members;
pub mod proof_text;
pub mod required;
