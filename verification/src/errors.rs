//! The ways in which evaluation fails or stops.

use vstd::prelude::*;
use crate::float::FloatOp;

verus! {

/// The representations of a value.
#[derive(Clone, Copy, Debug, PartialEq, Eq, Structural)]
pub enum ValueKind {
    Null,
    Integer,
    Rational,
    Float,
}

/// The domains that the arguments of the builtin functions must lie in.
#[derive(Clone, Copy, Debug, PartialEq, Eq, Structural)]
pub enum Domain {
    /// A non-negative integer, for the factorial.
    NonNegativeInteger,
    /// `[-1, 1]`, for `asin` and `acos`.
    UnitInterval,
    /// `[0, ∞)`, for `sqrt`.
    NonNegative,
    /// `(0, ∞)`, for the logarithms.
    Positive,
    /// `[0, ∞) × (ℝ \ {0})`, for `nroot`.
    Root,
}

/// An evaluation error.  It ends the evaluation of one statement and leaves
/// the context as it was.
#[derive(Debug, PartialEq)]
pub enum EvalError {
    DivisionByZero,
    MathDomain(Domain),
    Overflow,
    /// A value of the first kind cannot become one of the second.
    InvalidConversion(ValueKind, ValueKind),
    /// Expected a value of the first kind, found one of the second.
    TypeError(ValueKind, ValueKind),
    /// A function of the first number of parameters was given the second
    /// number of arguments.
    InvalidNumberOfArguments(usize, usize),
    FunctionNotFound(String),
    VariableNotFound(String),
    /// The name is that of a builtin constant.
    InvalidVariableDefinition(String),
    /// `_` was used before any expression had been evaluated.
    NoHistory,
}

/// The mathematical content of an [`EvalError`].
pub enum EvalErrorView {
    DivisionByZero,
    MathDomain(Domain),
    Overflow,
    InvalidConversion(ValueKind, ValueKind),
    TypeError(ValueKind, ValueKind),
    InvalidNumberOfArguments(usize, usize),
    FunctionNotFound(Seq<char>),
    VariableNotFound(Seq<char>),
    InvalidVariableDefinition(Seq<char>),
    NoHistory,
}

impl View for EvalError {
    type V = EvalErrorView;

    open spec fn view(&self) -> EvalErrorView {
        match self {
            EvalError::DivisionByZero => EvalErrorView::DivisionByZero,
            EvalError::MathDomain(d) => EvalErrorView::MathDomain(*d),
            EvalError::Overflow => EvalErrorView::Overflow,
            EvalError::InvalidConversion(a, b) => EvalErrorView::InvalidConversion(*a, *b),
            EvalError::TypeError(a, b) => EvalErrorView::TypeError(*a, *b),
            EvalError::InvalidNumberOfArguments(a, b) => EvalErrorView::InvalidNumberOfArguments(
                *a,
                *b,
            ),
            EvalError::FunctionNotFound(s) => EvalErrorView::FunctionNotFound(s@),
            EvalError::VariableNotFound(s) => EvalErrorView::VariableNotFound(s@),
            EvalError::InvalidVariableDefinition(s) => EvalErrorView::InvalidVariableDefinition(s@),
            EvalError::NoHistory => EvalErrorView::NoHistory,
        }
    }
}

/// Why an evaluation returned without a value.
#[derive(Debug, PartialEq)]
pub enum Halt {
    /// The statement is in error.
    Error(EvalError),
    /// The result of this floating-point operation is not in the table.
    Pending(FloatOp),
    /// User-defined functions called each other more deeply than allowed.
    DepthExceeded,
}

/// The mathematical content of a [`Halt`].
pub enum HaltView {
    Error(EvalErrorView),
    Pending(FloatOp),
    DepthExceeded,
}

impl View for Halt {
    type V = HaltView;

    open spec fn view(&self) -> HaltView {
        match self {
            Halt::Error(e) => HaltView::Error(e@),
            Halt::Pending(op) => HaltView::Pending(*op),
            Halt::DepthExceeded => HaltView::DepthExceeded,
        }
    }
}

} // verus!
