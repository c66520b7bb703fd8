//! The error record that every failing operation returns.

use crate::value::Value;
use vstd::prelude::*;

verus! {

/// What kind of error, or which signal to the embedding, a `CPSError` carries.
#[derive(Debug)]
pub enum ErrorType {
    Lexical,
    Syntax,
    /// A `RETURN` statement unwinding to the call that it ends.
    Return(Value),
    Runtime,
    /// The program produced this output line; the embedding shows it and runs again.
    StepOutput(String),
    /// The program asks for input for this variable; the embedding supplies it and runs again.
    StepNeedsInput(String),
}

/// An error with its position in the source, when one is known.
#[derive(Debug)]
pub struct CPSError {
    pub error_type: ErrorType,
    pub message: String,
    pub hint: Option<String>,
    pub line: usize,
    pub column: usize,
    pub source: Option<String>,
}

/// `e` is a runtime error whose message is `msg`, without position or source.
pub open spec fn is_runtime_error(e: CPSError, msg: Seq<char>) -> bool {
    &&& e.error_type is Runtime
    &&& e.message@ == msg
    &&& e.line == 0
    &&& e.column == 0
    &&& e.source is None
}

/// `e` is a runtime error, without position or source, whatever its message.
pub open spec fn is_runtime(e: CPSError) -> bool {
    &&& e.error_type is Runtime
    &&& e.line == 0
    &&& e.column == 0
    &&& e.source is None
}

impl CPSError {
    /// A runtime error with the given message and no hint.
    pub fn runtime(message: String) -> (e: CPSError)
        ensures
            is_runtime_error(e, message@),
            e.hint is None,
    {
        CPSError { error_type: ErrorType::Runtime, message, hint: None, line: 0, column: 0, source: None }
    }

    /// A runtime error with the given message and hint.
    pub fn runtime_with_hint(message: String, hint: String) -> (e: CPSError)
        ensures
            is_runtime_error(e, message@),
            e.hint matches Some(h) && h@ == hint@,
    {
        CPSError {
            error_type: ErrorType::Runtime,
            message,
            hint: Some(hint),
            line: 0,
            column: 0,
            source: None,
        }
    }

    /// The signal that carries a returned value up to the call it ends.
    pub fn returning(value: Value) -> (e: CPSError)
        ensures
            e.error_type == ErrorType::Return(value),
            e.message@ == Seq::<char>::empty(),
            e.hint is None,
            e.line == 0,
            e.column == 0,
            e.source is None,
    {
        CPSError {
            error_type: ErrorType::Return(value),
            message: String::new(),
            hint: None,
            line: 0,
            column: 0,
            source: None,
        }
    }

    /// The signal that hands one output line to the embedding.
    pub fn step_output(output: String) -> (e: CPSError)
        ensures
            e.error_type matches ErrorType::StepOutput(o) && o@ == output@,
            e.message@ == Seq::<char>::empty(),
            e.hint is None,
    {
        CPSError {
            error_type: ErrorType::StepOutput(output),
            message: String::new(),
            hint: None,
            line: 0,
            column: 0,
            source: None,
        }
    }

    /// The signal that asks the embedding for input for `variable`.
    pub fn step_needs_input(variable: String) -> (e: CPSError)
        ensures
            e.error_type matches ErrorType::StepNeedsInput(v) && v@ == variable@,
            e.message@ == Seq::<char>::empty(),
            e.hint is None,
    {
        CPSError {
            error_type: ErrorType::StepNeedsInput(variable),
            message: String::new(),
            hint: None,
            line: 0,
            column: 0,
            source: None,
        }
    }
}

} // verus!
