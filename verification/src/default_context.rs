//! The context that a session starts with: the builtin functions and
//! constants.

use vstd::prelude::*;
use crate::args::AngleUnit;
use crate::context::{Context, ContextView};
use crate::dict::Dict;
use crate::float::Float;
use crate::function::{Builtin, Function, FunctionView, Native};
use crate::number::Number;
use crate::value::Value;
use crate::variable::{Variable, VariableView};

verus! {

/// The bits of Euler's number, of π and of 2π.
pub const E_BITS: u64 = 0x4005_bf0a_8b14_5769;

pub const PI_BITS: u64 = 0x4009_21fb_5444_2d18;

pub const TAU_BITS: u64 = 0x4019_21fb_5444_2d18;

/// The number of builtin functions.
pub const BUILTIN_COUNT: usize = 26;

/// The builtin functions, in the order in which they are installed.
pub open spec fn builtin_at(i: int) -> Builtin {
    if i == 0 {
        Builtin::Sin
    } else if i == 1 {
        Builtin::Cos
    } else if i == 2 {
        Builtin::Tan
    } else if i == 3 {
        Builtin::Sec
    } else if i == 4 {
        Builtin::Csc
    } else if i == 5 {
        Builtin::Cot
    } else if i == 6 {
        Builtin::Asin
    } else if i == 7 {
        Builtin::Acos
    } else if i == 8 {
        Builtin::Atan
    } else if i == 9 {
        Builtin::Sinh
    } else if i == 10 {
        Builtin::Cosh
    } else if i == 11 {
        Builtin::Tanh
    } else if i == 12 {
        Builtin::Floor
    } else if i == 13 {
        Builtin::Ceil
    } else if i == 14 {
        Builtin::Round
    } else if i == 15 {
        Builtin::Abs
    } else if i == 16 {
        Builtin::Sqrt
    } else if i == 17 {
        Builtin::Exp
    } else if i == 18 {
        Builtin::Exp2
    } else if i == 19 {
        Builtin::Ln
    } else if i == 20 {
        Builtin::Log2
    } else if i == 21 {
        Builtin::Log10
    } else if i == 22 {
        Builtin::Rad
    } else if i == 23 {
        Builtin::Deg
    } else if i == 24 {
        Builtin::Log
    } else {
        Builtin::Nroot
    }
}

/// The name under which a builtin function is installed.
pub open spec fn builtin_name(b: Builtin) -> Seq<char> {
    match b {
        Builtin::Sin => "sin"@,
        Builtin::Cos => "cos"@,
        Builtin::Tan => "tan"@,
        Builtin::Sec => "sec"@,
        Builtin::Csc => "csc"@,
        Builtin::Cot => "cot"@,
        Builtin::Asin => "asin"@,
        Builtin::Acos => "acos"@,
        Builtin::Atan => "atan"@,
        Builtin::Sinh => "sinh"@,
        Builtin::Cosh => "cosh"@,
        Builtin::Tanh => "tanh"@,
        Builtin::Floor => "floor"@,
        Builtin::Ceil => "ceil"@,
        Builtin::Round => "round"@,
        Builtin::Abs => "abs"@,
        Builtin::Sqrt => "sqrt"@,
        Builtin::Exp => "exp"@,
        Builtin::Exp2 => "exp2"@,
        Builtin::Ln => "ln"@,
        Builtin::Log2 => "log2"@,
        Builtin::Log10 => "log10"@,
        Builtin::Rad => "rad"@,
        Builtin::Deg => "deg"@,
        Builtin::Log => "log"@,
        Builtin::Nroot => "nroot"@,
    }
}

/// The first `count` builtin functions, for angles in `unit`, by name.
pub open spec fn builtins_upto(unit: AngleUnit, count: nat) -> Map<Seq<char>, FunctionView>
    decreases count,
{
    if count == 0 {
        Map::empty()
    } else {
        let b = builtin_at(count - 1);
        builtins_upto(unit, (count - 1) as nat).insert(
            builtin_name(b),
            FunctionView::External { arity: b.spec_arity(), body: Native { builtin: b, unit } },
        )
    }
}

/// The builtin functions, for angles in `unit`, by name.
pub open spec fn default_functions(unit: AngleUnit) -> Map<Seq<char>, FunctionView> {
    builtins_upto(unit, BUILTIN_COUNT as nat)
}

/// The builtin constant with these bits.
pub open spec fn constant(bits: u64) -> VariableView {
    VariableView::External(Number::Float(Float { bits }))
}

/// The builtin constants `e`, `pi` and `tau`.
pub open spec fn default_variables() -> Map<Seq<char>, VariableView> {
    Map::empty().insert("e"@, constant(E_BITS)).insert("pi"@, constant(PI_BITS)).insert(
        "tau"@,
        constant(TAU_BITS),
    )
}

/// The context that a session starts with.
pub open spec fn default_context(unit: AngleUnit) -> ContextView {
    ContextView {
        previous_answer: None,
        functions: default_functions(unit),
        scopes: seq![default_variables()],
    }
}

fn builtin_number(i: usize) -> (b: Builtin)
    requires
        i < BUILTIN_COUNT,
    ensures
        b == builtin_at(i as int),
{
    if i == 0 {
        Builtin::Sin
    } else if i == 1 {
        Builtin::Cos
    } else if i == 2 {
        Builtin::Tan
    } else if i == 3 {
        Builtin::Sec
    } else if i == 4 {
        Builtin::Csc
    } else if i == 5 {
        Builtin::Cot
    } else if i == 6 {
        Builtin::Asin
    } else if i == 7 {
        Builtin::Acos
    } else if i == 8 {
        Builtin::Atan
    } else if i == 9 {
        Builtin::Sinh
    } else if i == 10 {
        Builtin::Cosh
    } else if i == 11 {
        Builtin::Tanh
    } else if i == 12 {
        Builtin::Floor
    } else if i == 13 {
        Builtin::Ceil
    } else if i == 14 {
        Builtin::Round
    } else if i == 15 {
        Builtin::Abs
    } else if i == 16 {
        Builtin::Sqrt
    } else if i == 17 {
        Builtin::Exp
    } else if i == 18 {
        Builtin::Exp2
    } else if i == 19 {
        Builtin::Ln
    } else if i == 20 {
        Builtin::Log2
    } else if i == 21 {
        Builtin::Log10
    } else if i == 22 {
        Builtin::Rad
    } else if i == 23 {
        Builtin::Deg
    } else if i == 24 {
        Builtin::Log
    } else {
        Builtin::Nroot
    }
}

impl Builtin {
    /// The name under which the builtin is installed.
    pub fn name(self) -> (name: &'static str)
        ensures
            name@ == builtin_name(self),
    {
        match self {
            Builtin::Sin => "sin",
            Builtin::Cos => "cos",
            Builtin::Tan => "tan",
            Builtin::Sec => "sec",
            Builtin::Csc => "csc",
            Builtin::Cot => "cot",
            Builtin::Asin => "asin",
            Builtin::Acos => "acos",
            Builtin::Atan => "atan",
            Builtin::Sinh => "sinh",
            Builtin::Cosh => "cosh",
            Builtin::Tanh => "tanh",
            Builtin::Floor => "floor",
            Builtin::Ceil => "ceil",
            Builtin::Round => "round",
            Builtin::Abs => "abs",
            Builtin::Sqrt => "sqrt",
            Builtin::Exp => "exp",
            Builtin::Exp2 => "exp2",
            Builtin::Ln => "ln",
            Builtin::Log2 => "log2",
            Builtin::Log10 => "log10",
            Builtin::Rad => "rad",
            Builtin::Deg => "deg",
            Builtin::Log => "log",
            Builtin::Nroot => "nroot",
        }
    }
}

/// The context that a session starts with: the builtin functions, for
/// angles in `angle_unit`, the builtin constants, and no previous answer.
pub fn create_context(angle_unit: &AngleUnit) -> (context: Context)
    ensures
        context.wf(),
        context@ == default_context(*angle_unit),
{
    let unit = *angle_unit;
    let mut functions: Dict<Function> = Dict::new();
    let mut i: usize = 0;
    while i < BUILTIN_COUNT
        invariant
            i <= BUILTIN_COUNT,
            functions.wf(),
            functions@ == builtins_upto(unit, i as nat),
        decreases BUILTIN_COUNT - i,
    {
        let b = builtin_number(i);
        functions.insert(b.name().to_owned(), Function::new_external(b, unit));
        i = i + 1;
    }
    let mut variables: Dict<Variable> = Dict::new();
    variables.insert("e".to_owned(), Variable::External(Value::Float(Float { bits: E_BITS })));
    variables.insert("pi".to_owned(), Variable::External(Value::Float(Float { bits: PI_BITS })));
    variables.insert("tau".to_owned(), Variable::External(Value::Float(Float { bits: TAU_BITS })));
    Context::new(functions, variables)
}

} // verus!
