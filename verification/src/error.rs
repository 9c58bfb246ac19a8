//! The closed set of ways in which assembling an instruction can fail.

use vstd::prelude::*;
use crate::span::{Span, SpannedString, SpannedText};
use crate::token::Rule;

verus! {

/// The instruction families this library assembles.
#[derive(Debug, PartialEq, Eq, Clone, Copy, Structural)]
pub enum InstructionFamily {
    Copy,
    Run,
}

/// A failure to assemble or to narrow an instruction.
#[derive(Debug, PartialEq, Eq, Clone)]
pub enum Error {
    /// The token tree has the wrong shape; the message says what is missing.
    GenericParseError { message: String },
    /// A child token of a kind that the assembler did not expect where it
    /// stands, named by its kind and its range.
    UnexpectedToken { rule: Rule, span: Span },
    /// A terminator line that is not its delimiter followed by a newline.
    HeredocTerminatorMismatch {
        instruction: InstructionFamily,
        delimiter: SpannedString,
        terminator: SpannedString,
    },
    /// A terminator line seen while no delimiter was open.
    UnmatchedHeredocTerminator { terminator: SpannedString },
    /// The instruction ended with this delimiter, the oldest, still open.
    UnmatchedHeredocDelimiter { delimiter: SpannedString },
    /// An instruction of family `from` was asked for as one of family `to`.
    ConversionError { from: String, to: String },
}

/// What an [`Error`] is to a contract.
pub enum ErrorView {
    GenericParseError { message: Seq<char> },
    UnexpectedToken { rule: Rule, span: Span },
    HeredocTerminatorMismatch {
        instruction: InstructionFamily,
        delimiter: SpannedText,
        terminator: SpannedText,
    },
    UnmatchedHeredocTerminator { terminator: SpannedText },
    UnmatchedHeredocDelimiter { delimiter: SpannedText },
    ConversionError { from: Seq<char>, to: Seq<char> },
}

impl View for Error {
    type V = ErrorView;

    open spec fn view(&self) -> ErrorView {
        match *self {
            Error::GenericParseError { message } => ErrorView::GenericParseError {
                message: message@,
            },
            Error::UnexpectedToken { rule, span } => ErrorView::UnexpectedToken { rule, span },
            Error::HeredocTerminatorMismatch {
                instruction,
                delimiter,
                terminator,
            } => ErrorView::HeredocTerminatorMismatch {
                instruction,
                delimiter: delimiter@,
                terminator: terminator@,
            },
            Error::UnmatchedHeredocTerminator { terminator } => ErrorView::UnmatchedHeredocTerminator {
                terminator: terminator@,
            },
            Error::UnmatchedHeredocDelimiter { delimiter } => ErrorView::UnmatchedHeredocDelimiter {
                delimiter: delimiter@,
            },
            Error::ConversionError { from, to } => ErrorView::ConversionError {
                from: from@,
                to: to@,
            },
        }
    }
}

/// The shape error that carries `message`.
pub open spec fn generic_error(message: &str) -> ErrorView {
    ErrorView::GenericParseError { message: message@ }
}

impl Error {
    /// A shape error with the given message.
    pub fn generic(message: &str) -> (error: Error)
        ensures
            error@ == generic_error(message),
    {
        Error::GenericParseError { message: message.to_string() }
    }
}

} // verus!
