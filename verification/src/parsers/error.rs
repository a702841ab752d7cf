//! What can be wrong with an input text.

use vstd::prelude::*;

verus! {

/// The kinds of fault in an input text.
#[derive(Clone, Copy, Debug, PartialEq, Eq)]
pub enum ParseErrorKind {
    /// The framework holds no line but comments.
    MissingPreamble,
    /// The preamble is not two numbers and a closing `0`.
    MalformedPreamble,
    /// The number of arguments in the preamble is no number.
    InvalidArgumentCount,
    /// The number of attacks in the preamble is no number.
    InvalidAttackCount,
    /// The framework holds more attacks than the preamble announces.
    TooManyAttacks,
    /// The framework holds fewer attacks than the preamble announces.
    TooFewAttacks,
    /// An attack has fewer than three tokens or lacks the closing `0`.
    MalformedAttack,
    /// The attacked argument is no number of an argument.
    InvalidAttackedArgument,
    /// An attacker is no number.
    InvalidAttackMember,
    /// An attacker is above the number of arguments.
    UnknownAttackMember,
    /// A description line has no name.
    MalformedDescription,
    /// A description line does not start with the number of an argument.
    InvalidDescriptionArgument,
    /// A required argument is no number of an argument.
    InvalidRequiredArgument,
    /// A required-argument line of several tokens does not start with `s`.
    MalformedRequired,
    /// A required argument is named by a name that several arguments bear.
    AmbiguousArgumentName,
    /// A required argument is named by a name that no argument bears.
    UnknownArgumentName,
    /// A proof line names no rule.
    MalformedClause,
    /// A proof line lacks the closing `0`, or a deletion its clause.
    MalformedProofLine,
    /// A literal of a proof line is no number.
    InvalidLiteral,
    /// A literal of a proof line is zero or beyond the number of arguments.
    UnknownLiteral,
    /// A deletion line holds no literal.
    EmptyDeletion,
    /// Every clause that a deletion line matches has been deleted before.
    AlreadyDeleted,
    /// A deletion line matches no clause of the proof.
    UnknownDeletion,
    /// The proof does not end with the empty clause.
    MissingEmptyClause,
}

/// A fault in an input text and the index of the line that holds it, counted
/// from zero over all lines of the text, comments included. A fault that no
/// line holds is reported at the number of lines.
#[derive(Clone, Copy, Debug, PartialEq, Eq)]
pub struct ParseError {
    pub kind: ParseErrorKind,
    pub line: usize,
}

/// The fault of the given kind at the given line.
pub open spec fn fault(kind: ParseErrorKind, line: int) -> ParseError {
    ParseError { kind, line: line as usize }
}

} // verus!
