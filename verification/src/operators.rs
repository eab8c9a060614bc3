//! Operator vocabulary of the expression grammar.

use vstd::prelude::*;

verus! {

/// Operators written before their operand.
#[derive(Debug, PartialEq, Eq, Clone, Copy, Structural)]
pub enum PrefixOp {
    /// Arithmetic negation, written `-`.
    Neg,
}

/// Operators written after their operand.
#[derive(Debug, PartialEq, Eq, Clone, Copy, Structural)]
pub enum PostfixOp {
    /// Factorial, written `!`.
    Fac,
}

/// Operators written between two operands.
#[derive(Debug, PartialEq, Eq, Clone, Copy, Structural)]
pub enum InfixOp {
    Add,
    Sub,
    Mul,
    Div,
    Rem,
    Pow,
}

impl PrefixOp {
    /// How the operator is written.
    pub open spec fn spec_symbol(self) -> Seq<char> {
        "-"@
    }

    /// How the operator is written.
    pub fn symbol(self) -> (s: &'static str)
        ensures
            s@ == self.spec_symbol(),
    {
        "-"
    }
}

impl PostfixOp {
    /// How the operator is written.
    pub open spec fn spec_symbol(self) -> Seq<char> {
        "!"@
    }

    /// How the operator is written.
    pub fn symbol(self) -> (s: &'static str)
        ensures
            s@ == self.spec_symbol(),
    {
        "!"
    }
}

impl InfixOp {
    /// How the operator is written.
    pub open spec fn spec_symbol(self) -> Seq<char> {
        match self {
            InfixOp::Add => "+"@,
            InfixOp::Sub => "-"@,
            InfixOp::Mul => "*"@,
            InfixOp::Div => "/"@,
            InfixOp::Rem => "%"@,
            InfixOp::Pow => "^"@,
        }
    }

    /// How the operator is written.
    pub fn symbol(self) -> (s: &'static str)
        ensures
            s@ == self.spec_symbol(),
    {
        match self {
            InfixOp::Add => "+",
            InfixOp::Sub => "-",
            InfixOp::Mul => "*",
            InfixOp::Div => "/",
            InfixOp::Rem => "%",
            InfixOp::Pow => "^",
        }
    }
}

} // verus!
