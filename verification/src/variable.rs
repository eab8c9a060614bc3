//! Variables: builtin constants and what the user binds.

use vstd::prelude::*;
use crate::number::Number;
use crate::value::Value;

verus! {

/// A variable.
#[derive(Clone, Copy, Debug)]
pub enum Variable {
    /// A builtin constant.  It cannot be bound again.
    External(Value),
    /// A variable of the user.
    Internal(Value),
}

/// The mathematical content of a [`Variable`].
pub enum VariableView {
    External(Number),
    Internal(Number),
}

impl VariableView {
    /// The value of the variable.
    pub open spec fn value(self) -> Number {
        match self {
            VariableView::External(v) => v,
            VariableView::Internal(v) => v,
        }
    }
}

impl View for Variable {
    type V = VariableView;

    open spec fn view(&self) -> VariableView {
        match self {
            Variable::External(v) => VariableView::External(v@),
            Variable::Internal(v) => VariableView::Internal(v@),
        }
    }
}

impl Variable {
    /// The value of the variable.
    pub fn get(&self) -> (v: Value)
        ensures
            v@ == self@.value(),
    {
        match self {
            Variable::External(v) => *v,
            Variable::Internal(v) => *v,
        }
    }

    /// Whether the variable is a builtin constant.
    pub fn is_external(&self) -> (r: bool)
        ensures
            r == (self@ is External),
    {
        match self {
            Variable::External(_) => true,
            Variable::Internal(_) => false,
        }
    }
}

} // verus!
