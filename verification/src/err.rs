//! The interpreter's error type. The first error ends the run; the ghost
//! form [`GErr`] is what the semantics speaks about.

use vstd::prelude::*;
use crate::sem::GErr;

verus! {

/// Why a run stopped. Every kind is terminal: there is no statement-level
/// recovery, and mutations already applied stay visible.
#[derive(Debug, Clone)]
pub enum InterpreterError {
    /// The statement began with this unrecognized keyword.
    UnknownCommand(String),
    /// The token stream ended in the middle of a statement.
    MissingOperand,
    /// An operand could not be read as a value of the expected type.
    ParseLiteral,
    /// A name was used before any declaration bound it.
    UndefinedName,
    /// A call supplied more or fewer arguments than the function declares.
    ArityMismatch,
    /// An integer division had a zero divisor.
    DivisionByZero,
    /// An operand outside the operation's domain: a negative square root or
    /// exponent, or an integer result outside the 32-bit range.
    InvalidOperand,
    /// The output sink refused a write. The library's own in-memory sink
    /// never fails; hosts with fallible sinks report this themselves.
    IOFailure,
    /// The run took more machine transitions than the interpreter is willing
    /// to make: the program neither finished nor failed within `u64::MAX`
    /// transitions. An ever-true `loop` is the only way here.
    StepLimit,
}

impl View for InterpreterError {
    type V = GErr;

    open spec fn view(&self) -> GErr {
        match self {
            InterpreterError::UnknownCommand(t) => GErr::UnknownCommand(t@),
            InterpreterError::MissingOperand => GErr::MissingOperand,
            InterpreterError::ParseLiteral => GErr::ParseLiteral,
            InterpreterError::UndefinedName => GErr::UndefinedName,
            InterpreterError::ArityMismatch => GErr::ArityMismatch,
            InterpreterError::DivisionByZero => GErr::DivisionByZero,
            InterpreterError::InvalidOperand => GErr::InvalidOperand,
            InterpreterError::IOFailure => GErr::IOFailure,
            InterpreterError::StepLimit => GErr::StepLimit,
        }
    }
}

} // verus!
