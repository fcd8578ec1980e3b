//! Runtime faults.
//!
//! Execution surfaces the first fault and halts; nothing is recoverable
//! mid-run.  The variants follow the runtime's error taxonomy: an internal
//! stack imbalance, an unbound global, an operand of the wrong kind, an
//! unknown operator, and a catch-all with its own message (used for the
//! bounds fault on array writes).

use vstd::prelude::*;

verus! {

/// The mathematical image of a [`RuntimeError`]: the same variants over
/// `Seq<char>`.
pub enum SpecErr {
    StackUnderflow,
    UndefinedVariable(Seq<char>),
    TypeError(Seq<char>),
    UnknownOperator(Seq<char>),
    Custom(Seq<char>),
}

#[derive(Debug)]
pub enum RuntimeError {
    StackUnderflow,
    UndefinedVariable(Vec<char>),
    TypeError(String),
    UnknownOperator(String),
    Custom(String),
}

impl View for RuntimeError {
    type V = SpecErr;

    open spec fn view(&self) -> SpecErr {
        match self {
            RuntimeError::StackUnderflow => SpecErr::StackUnderflow,
            RuntimeError::UndefinedVariable(n) => SpecErr::UndefinedVariable(n@),
            RuntimeError::TypeError(m) => SpecErr::TypeError(m@),
            RuntimeError::UnknownOperator(m) => SpecErr::UnknownOperator(m@),
            RuntimeError::Custom(m) => SpecErr::Custom(m@),
        }
    }
}

} // verus!
