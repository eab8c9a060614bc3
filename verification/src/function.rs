//! Functions: builtin ones and those that the user defines.

use vstd::prelude::*;
use crate::args::AngleUnit;
use crate::expression::{name_views, Expr, ExprView};
use crate::statement::duplicate_names;

verus! {

/// The builtin functions.
#[derive(Clone, Copy, Debug, PartialEq, Eq, Structural)]
pub enum Builtin {
    Sin,
    Cos,
    Tan,
    /// The secant, `1 / cos`.
    Sec,
    /// The cosecant, `1 / sin`.
    Csc,
    /// The cotangent, `1 / tan`.
    Cot,
    Asin,
    Acos,
    Atan,
    Sinh,
    Cosh,
    Tanh,
    Floor,
    Ceil,
    Round,
    Abs,
    Sqrt,
    Exp,
    Exp2,
    Ln,
    Log2,
    Log10,
    /// Degrees to radians.
    Rad,
    /// Radians to degrees.
    Deg,
    /// `log(value, base)`
    Log,
    /// `nroot(value, n)`, the `n`-th root.
    Nroot,
}

impl Builtin {
    /// The number of arguments that the builtin takes.
    pub open spec fn spec_arity(self) -> usize {
        match self {
            Builtin::Log | Builtin::Nroot => 2,
            _ => 1,
        }
    }

    #[verifier::when_used_as_spec(spec_arity)]
    pub fn arity(self) -> (n: usize)
        ensures
            n == self.spec_arity(),
    {
        match self {
            Builtin::Log | Builtin::Nroot => 2,
            _ => 1,
        }
    }
}

/// A builtin function together with the unit of its angles.
#[derive(Clone, Copy, Debug, PartialEq, Eq, Structural)]
pub struct Native {
    pub builtin: Builtin,
    pub unit: AngleUnit,
}

/// A function that can be called by name.
#[allow(inconsistent_fields)]
#[derive(Debug)]
pub enum Function {
    /// A builtin function.
    External { arity: usize, body: Native },
    /// A function that the user defined.
    Internal { arity: usize, arg_names: Vec<String>, body: Expr },
}

/// The mathematical content of a [`Function`].
#[allow(inconsistent_fields)]
pub enum FunctionView {
    External { arity: usize, body: Native },
    Internal { arity: usize, arg_names: Seq<Seq<char>>, body: ExprView },
}

impl View for Function {
    type V = FunctionView;

    open spec fn view(&self) -> FunctionView {
        match self {
            Function::External { arity, body } => FunctionView::External {
                arity: *arity,
                body: *body,
            },
            Function::Internal { arity, arg_names, body } => FunctionView::Internal {
                arity: *arity,
                arg_names: name_views(arg_names@),
                body: body@,
            },
        }
    }
}

impl Function {
    /// A function of the user with these parameters and this body.
    pub fn new_internal(arg_names: Vec<String>, body: Expr) -> (f: Function)
        ensures
            f@ == (FunctionView::Internal {
                arity: arg_names@.len() as usize,
                arg_names: name_views(arg_names@),
                body: body@,
            }),
    {
        Function::Internal { arity: arg_names.len(), arg_names, body }
    }

    /// The builtin function `builtin` for angles in `unit`.
    pub fn new_external(builtin: Builtin, unit: AngleUnit) -> (f: Function)
        ensures
            f@ == (FunctionView::External {
                arity: builtin.spec_arity(),
                body: Native { builtin, unit },
            }),
    {
        Function::External { arity: builtin.arity(), body: Native { builtin, unit } }
    }

    /// Whether the function is a builtin.
    pub fn is_external(&self) -> (r: bool)
        ensures
            r == (self@ is External),
    {
        match self {
            Function::External { .. } => true,
            Function::Internal { .. } => false,
        }
    }

    /// The number of arguments that the function takes.
    pub fn arity(&self) -> (n: usize)
        ensures
            n == match self@ {
                FunctionView::External { arity, .. } => arity,
                FunctionView::Internal { arity, .. } => arity,
            },
    {
        match self {
            Function::External { arity, .. } => *arity,
            Function::Internal { arity, .. } => *arity,
        }
    }
}

impl Clone for Function {
    fn clone(&self) -> (copy: Self)
        ensures
            copy@ == self@,
    {
        match self {
            Function::External { arity, body } => Function::External { arity: *arity, body: *body },
            Function::Internal { arity, arg_names, body } => Function::Internal {
                arity: *arity,
                arg_names: duplicate_names(arg_names),
                body: body.duplicate(),
            },
        }
    }
}

} // verus!
