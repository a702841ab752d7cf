//! Verifies proofs by reverse unit propagation that a framework of
//! arguments with collective attacks has no admissible, or no stable,
//! extension with the required arguments.
//!
//! The instance is read from the lines of its texts ([`instance_base`]). A
//! worker checks a clause of the proof over its own view of the instance
//! ([`instance_view`]) by the rule that the clause claims ([`verifiers`]).
//! The supervisor hands the clauses out and ends the run ([`supervisor`]).

pub mod argument_base;
pub mod argument_view;
pub mod clause_base;
pub mod clause_view;
pub mod instance_base;
pub mod instance_view;
pub mod parsers;
pub mod propagation;
pub mod semantics;
pub mod supervisor;
pub mod text;
pub mod verifiers;
pub mod worker;

use crate::supervisor::SupervisorState;
use vstd::prelude::*;

verus! {

/// The run came to a result, or the required arguments contradict each
/// other.
pub const EXIT_CODE_OK: u8 = 0;

/// The signal handlers could not be set up.
pub const EXIT_CODE_SETUP_SIGNALS: u8 = 2;

/// The run was interrupted by a signal.
pub const EXIT_CODE_SIGNALS: u8 = 4;

/// The instance could not be read.
pub const EXIT_CODE_INSTANCE: u8 = 8;

/// The time ran out.
pub const EXIT_CODE_TIMEOUT: u8 = 32;

/// The run ended without having worked.
pub const EXIT_CODE_FAILURE: u8 = 64;

/// Something unexpected happened.
pub const EXIT_CODE_UNEXPECTED: u8 = 128;

/// Tells a worker whether to stop: `Ok(false)` while the run is to go on,
/// and an error once it is to end as soon as possible.
pub fn should_stop(do_work: bool) -> (result: Result<bool, String>)
    ensures
        do_work ==> result == Ok::<bool, String>(false),
        !do_work ==> result is Err && result->Err_0@ == "Interrupted"@,
{
    if do_work {
        Ok(false)
    } else {
        Err("Interrupted".to_string())
    }
}

/// The exit code of a run that has ended in the given state.
pub open spec fn exit_code_of(state: SupervisorState) -> u8 {
    match state {
        SupervisorState::NotStarted => EXIT_CODE_FAILURE,
        SupervisorState::Working => EXIT_CODE_FAILURE,
        SupervisorState::ParsingFailed => EXIT_CODE_INSTANCE,
        SupervisorState::RequiredArgumentInconsistent => EXIT_CODE_OK,
        SupervisorState::Finished => EXIT_CODE_OK,
        SupervisorState::UnexpectedError => EXIT_CODE_UNEXPECTED,
        SupervisorState::Unknown => EXIT_CODE_UNEXPECTED,
    }
}

/// Returns the exit code of a run that has ended in the given state.
pub fn exit_code(state: SupervisorState) -> (code: u8)
    ensures
        code == exit_code_of(state),
{
    match state {
        SupervisorState::NotStarted => EXIT_CODE_FAILURE,
        SupervisorState::Working => EXIT_CODE_FAILURE,
        SupervisorState::ParsingFailed => EXIT_CODE_INSTANCE,
        SupervisorState::RequiredArgumentInconsistent => EXIT_CODE_OK,
        SupervisorState::Finished => EXIT_CODE_OK,
        SupervisorState::UnexpectedError => EXIT_CODE_UNEXPECTED,
        SupervisorState::Unknown => EXIT_CODE_UNEXPECTED,
    }
}

} // verus!
