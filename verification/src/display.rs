//! Tokens, expressions, statements, values and errors as text.

use vstd::prelude::*;
use vstd::string::StringExecFns;
use crate::errors::{Domain, EvalError, EvalErrorView, ValueKind};
use crate::expression::{Expr, ExprView};
use crate::number::Number;
use crate::parser::{Expected, Label, SyntaxError};
use crate::statement::{Stmt, StmtView};
use crate::text::{integer_text, natural_text, push_integer, push_natural};
use crate::token::{Decimal, Token, TokenView};
use crate::value::Value;

verus! {

/// A decimal literal as `<mantissa>e<exponent>`.
pub open spec fn decimal_text(d: Decimal) -> Seq<char> {
    natural_text(d.mantissa as nat) + "e"@ + integer_text(d.exponent as int)
}

fn push_decimal(out: &mut String, d: Decimal)
    ensures
        final(out)@ == old(out)@ + decimal_text(d),
{
    push_natural(out, d.mantissa);
    out.append("e");
    push_integer(out, d.exponent as i128);
    proof {
        assert(final(out)@ =~= old(out)@ + decimal_text(d));
    }
}

/// A token as it is written; an error token as `unknown symbol`.
pub open spec fn token_text(t: TokenView) -> Seq<char> {
    match t {
        TokenView::Error => "unknown symbol"@,
        TokenView::Space => " "@,
        TokenView::Int(n) => integer_text(n as int),
        TokenView::Float(d) => decimal_text(d),
        TokenView::Let => "let"@,
        TokenView::Equal => "="@,
        TokenView::Plus => "+"@,
        TokenView::Minus => "-"@,
        TokenView::Asterisk => "*"@,
        TokenView::Slash => "/"@,
        TokenView::Percent => "%"@,
        TokenView::Caret => "^"@,
        TokenView::Exclamation => "!"@,
        TokenView::LParen => "("@,
        TokenView::RParen => ")"@,
        TokenView::Comma => ","@,
        TokenView::Underscore => "_"@,
        TokenView::Ident(name) => name,
    }
}

impl Token {
    /// The token as text.
    pub fn to_text(&self) -> (text: String)
        ensures
            text@ == token_text(self@),
    {
        match self {
            Token::Error => String::from_str("unknown symbol"),
            Token::Space => String::from_str(" "),
            Token::Int(n) => {
                let mut out = String::new();
                push_integer(&mut out, *n as i128);
                proof {
                    assert(out@ =~= integer_text(*n as int));
                }
                out
            },
            Token::Float(d) => {
                let mut out = String::new();
                push_decimal(&mut out, *d);
                proof {
                    assert(out@ =~= decimal_text(*d));
                }
                out
            },
            Token::Let => String::from_str("let"),
            Token::Equal => String::from_str("="),
            Token::Plus => String::from_str("+"),
            Token::Minus => String::from_str("-"),
            Token::Asterisk => String::from_str("*"),
            Token::Slash => String::from_str("/"),
            Token::Percent => String::from_str("%"),
            Token::Caret => String::from_str("^"),
            Token::Exclamation => String::from_str("!"),
            Token::LParen => String::from_str("("),
            Token::RParen => String::from_str(")"),
            Token::Comma => String::from_str(","),
            Token::Underscore => String::from_str("_"),
            Token::Ident(name) => name.clone(),
        }
    }
}

/// The classes of tokens that a line is coloured by.
#[derive(Clone, Copy, Debug, PartialEq, Eq, Structural)]
pub enum Highlight {
    Invalid,
    Number,
    Name,
    Operator,
    Paren,
    Keyword,
    Plain,
}

/// The class that a token is coloured by.
pub open spec fn highlight_of(t: TokenView) -> Highlight {
    match t {
        TokenView::Error => Highlight::Invalid,
        TokenView::Int(_) | TokenView::Float(_) => Highlight::Number,
        TokenView::Ident(_) => Highlight::Name,
        TokenView::Plus
        | TokenView::Minus
        | TokenView::Asterisk
        | TokenView::Slash
        | TokenView::Percent
        | TokenView::Caret
        | TokenView::Exclamation
        | TokenView::Equal => Highlight::Operator,
        TokenView::LParen | TokenView::RParen => Highlight::Paren,
        TokenView::Let => Highlight::Keyword,
        _ => Highlight::Plain,
    }
}

impl Token {
    /// The class that the token is coloured by.
    pub fn highlight(&self) -> (class: Highlight)
        ensures
            class == highlight_of(self@),
    {
        match self {
            Token::Error => Highlight::Invalid,
            Token::Int(_) | Token::Float(_) => Highlight::Number,
            Token::Ident(_) => Highlight::Name,
            Token::Plus
            | Token::Minus
            | Token::Asterisk
            | Token::Slash
            | Token::Percent
            | Token::Caret
            | Token::Exclamation
            | Token::Equal => Highlight::Operator,
            Token::LParen | Token::RParen => Highlight::Paren,
            Token::Let => Highlight::Keyword,
            _ => Highlight::Plain,
        }
    }
}

/// An expression, fully parenthesised.
pub open spec fn expr_text(e: ExprView) -> Seq<char>
    decreases e, 0nat,
{
    match e {
        ExprView::Int(n) => integer_text(n as int),
        ExprView::Float(d) => decimal_text(d),
        ExprView::Variable(name) => name,
        ExprView::FnCall { name, args } => name + "("@ + args_text(args, args.len()) + ")"@,
        ExprView::PrefixOp { op, arg } => "("@ + op.spec_symbol() + expr_text(*arg) + ")"@,
        ExprView::PostfixOp { op, arg } => "("@ + expr_text(*arg) + op.spec_symbol() + ")"@,
        ExprView::InfixOp { op, lhs, rhs } => "("@ + expr_text(*lhs) + " "@ + op.spec_symbol()
            + " "@ + expr_text(*rhs) + ")"@,
        ExprView::PrevAnswer => "_"@,
    }
}

/// The first `count` of the arguments, separated by `, `.
pub open spec fn args_text(args: Seq<ExprView>, count: nat) -> Seq<char>
    decreases args, count,
{
    if count == 0 || count > args.len() {
        Seq::empty()
    } else if count == 1 {
        expr_text(args[0])
    } else {
        args_text(args, (count - 1) as nat) + ", "@ + expr_text(args[count - 1])
    }
}

impl Expr {
    /// Writes the expression at the end of `out`.
    pub fn write_to(&self, out: &mut String)
        ensures
            final(out)@ == old(out)@ + expr_text(self@),
        decreases self,
    {
        match self {
            Expr::Int(n) => push_integer(out, *n as i128),
            Expr::Float(d) => push_decimal(out, *d),
            Expr::Variable(name) => out.append(name.as_str()),
            Expr::FnCall { name, args } => {
                out.append(name.as_str());
                out.append("(");
                let ghost start = out@;
                let mut i: usize = 0;
                proof {
                    assert(out@ =~= start + args_text(self@->FnCall_args, 0));
                }
                while i < args.len()
                    invariant
                        i <= args.len(),
                        self matches Expr::FnCall { args: a, .. } && a == args,
                        out@ == start + args_text(self@->FnCall_args, i as nat),
                    decreases args.len() - i,
                {
                    if i > 0 {
                        out.append(", ");
                    }
                    let ghost before = out@;
                    args[i].write_to(out);
                    proof {
                        assert(self@->FnCall_args[i as int] == args[i as int]@);
                        assert(out@ =~= start + args_text(self@->FnCall_args, (i + 1) as nat));
                    }
                    i = i + 1;
                }
                out.append(")");
                proof {
                    assert(final(out)@ =~= old(out)@ + expr_text(self@));
                }
            },
            Expr::PrefixOp { op, arg } => {
                out.append("(");
                out.append(op.symbol());
                arg.write_to(out);
                out.append(")");
                proof {
                    assert(final(out)@ =~= old(out)@ + expr_text(self@));
                }
            },
            Expr::PostfixOp { op, arg } => {
                out.append("(");
                arg.write_to(out);
                out.append(op.symbol());
                out.append(")");
                proof {
                    assert(final(out)@ =~= old(out)@ + expr_text(self@));
                }
            },
            Expr::InfixOp { op, lhs, rhs } => {
                out.append("(");
                lhs.write_to(out);
                out.append(" ");
                out.append(op.symbol());
                out.append(" ");
                rhs.write_to(out);
                out.append(")");
                proof {
                    assert(final(out)@ =~= old(out)@ + expr_text(self@));
                }
            },
            Expr::PrevAnswer => out.append("_"),
        }
    }

    /// The expression as text, fully parenthesised.
    pub fn to_text(&self) -> (text: String)
        ensures
            text@ == expr_text(self@),
    {
        let mut out = String::new();
        self.write_to(&mut out);
        proof {
            assert(out@ =~= expr_text(self@));
        }
        out
    }
}

/// The first `count` of the names, separated by `, `.
pub open spec fn names_text(names: Seq<Seq<char>>, count: nat) -> Seq<char>
    decreases count,
{
    if count == 0 || count > names.len() {
        Seq::empty()
    } else if count == 1 {
        names[0]
    } else {
        names_text(names, (count - 1) as nat) + ", "@ + names[count - 1]
    }
}

/// A statement as text: a definition as `let name := expr` or
/// `let name(parameters) := body`.
pub open spec fn stmt_text(s: StmtView) -> Seq<char> {
    match s {
        StmtView::DefVar { name, expr } => "let "@ + name + " := "@ + expr_text(expr),
        StmtView::DefFun { name, arg_names, body } => "let "@ + name + "("@ + names_text(
            arg_names,
            arg_names.len(),
        ) + ") := "@ + expr_text(body),
        StmtView::Expr(expr) => expr_text(expr),
    }
}

impl Stmt {
    /// The statement as text.
    pub fn to_text(&self) -> (text: String)
        ensures
            text@ == stmt_text(self@),
    {
        match self {
            Stmt::DefVar { name, expr } => {
                let mut out = String::from_str("let ");
                out.append(name.as_str());
                out.append(" := ");
                expr.write_to(&mut out);
                proof {
                    assert(out@ =~= stmt_text(self@));
                }
                out
            },
            Stmt::DefFun { name, arg_names, body } => {
                let mut out = String::from_str("let ");
                out.append(name.as_str());
                out.append("(");
                let ghost start = out@;
                let ghost names = crate::expression::name_views(arg_names@);
                let mut i: usize = 0;
                proof {
                    assert(out@ =~= start + names_text(names, 0));
                }
                while i < arg_names.len()
                    invariant
                        i <= arg_names.len(),
                        names == crate::expression::name_views(arg_names@),
                        out@ == start + names_text(names, i as nat),
                    decreases arg_names.len() - i,
                {
                    if i > 0 {
                        out.append(", ");
                    }
                    out.append(arg_names[i].as_str());
                    proof {
                        assert(names[i as int] == arg_names@[i as int]@);
                        assert(out@ =~= start + names_text(names, (i + 1) as nat));
                    }
                    i = i + 1;
                }
                out.append(") := ");
                body.write_to(&mut out);
                proof {
                    assert(out@ =~= stmt_text(self@));
                }
                out
            },
            Stmt::Expr(expr) => expr.to_text(),
        }
    }
}

impl ValueKind {
    /// The name, in words.
    pub open spec fn spec_name(self) -> Seq<char> {
        match self {
            ValueKind::Null => "Null"@,
            ValueKind::Integer => "Integer"@,
            ValueKind::Rational => "Rational"@,
            ValueKind::Float => "Float"@,
        }
    }

    /// The name of the representation.
    pub fn name(self) -> (s: &'static str)
        ensures
            s@ == self.spec_name(),
    {
        match self {
            ValueKind::Null => "Null",
            ValueKind::Integer => "Integer",
            ValueKind::Rational => "Rational",
            ValueKind::Float => "Float",
        }
    }
}

impl Domain {
    /// The description, in words.
    pub open spec fn spec_describe(self) -> Seq<char> {
        match self {
            Domain::NonNegativeInteger => "the argument must be a non-negative integer"@,
            Domain::UnitInterval => "the domain is [-1, 1]"@,
            Domain::NonNegative => "the domain is [0, infinity)"@,
            Domain::Positive => "the domain is (0, infinity)"@,
            Domain::Root => "the domain is [0, infinity) x (R \\ {0})"@,
        }
    }

    /// What the domain is, in words.
    pub fn describe(self) -> (s: &'static str)
        ensures
            s@ == self.spec_describe(),
    {
        match self {
            Domain::NonNegativeInteger => "the argument must be a non-negative integer",
            Domain::UnitInterval => "the domain is [-1, 1]",
            Domain::NonNegative => "the domain is [0, infinity)",
            Domain::Positive => "the domain is (0, infinity)",
            Domain::Root => "the domain is [0, infinity) x (R \\ {0})",
        }
    }
}

/// What an evaluation error says.
pub open spec fn error_text(e: EvalErrorView) -> Seq<char> {
    match e {
        EvalErrorView::DivisionByZero => "division by zero"@,
        EvalErrorView::MathDomain(d) => "domain error: "@ + d.spec_describe(),
        EvalErrorView::Overflow => "overflow"@,
        EvalErrorView::InvalidConversion(from, to) => "conversion from "@ + from.spec_name()
            + " to "@ + to.spec_name() + " is not supported"@,
        EvalErrorView::TypeError(expected, found) => "type error (expected: "@
            + expected.spec_name() + ", found: "@ + found.spec_name() + ")"@,
        EvalErrorView::InvalidNumberOfArguments(expected, found) =>
            "invalid number of arguments (expected: "@ + natural_text(expected as nat)
            + ", found: "@ + natural_text(found as nat) + ")"@,
        EvalErrorView::FunctionNotFound(name) => "function not found: "@ + name,
        EvalErrorView::VariableNotFound(name) => "variable not found: "@ + name,
        EvalErrorView::InvalidVariableDefinition(name) => "failed to define a variable: "@ + name,
        EvalErrorView::NoHistory => "no previous answer"@,
    }
}

impl EvalError {
    /// What the error says.
    pub fn message(&self) -> (text: String)
        ensures
            text@ == error_text(self@),
    {
        match self {
            EvalError::DivisionByZero => String::from_str("division by zero"),
            EvalError::MathDomain(d) => {
                let mut out = String::from_str("domain error: ");
                out.append(d.describe());
                out
            },
            EvalError::Overflow => String::from_str("overflow"),
            EvalError::InvalidConversion(from, to) => {
                let mut out = String::from_str("conversion from ");
                out.append(from.name());
                out.append(" to ");
                out.append(to.name());
                out.append(" is not supported");
                out
            },
            EvalError::TypeError(expected, found) => {
                let mut out = String::from_str("type error (expected: ");
                out.append(expected.name());
                out.append(", found: ");
                out.append(found.name());
                out.append(")");
                out
            },
            EvalError::InvalidNumberOfArguments(expected, found) => {
                let mut out = String::from_str("invalid number of arguments (expected: ");
                push_natural(&mut out, *expected as u128);
                out.append(", found: ");
                push_natural(&mut out, *found as u128);
                out.append(")");
                out
            },
            EvalError::FunctionNotFound(name) => {
                let mut out = String::from_str("function not found: ");
                out.append(name.as_str());
                out
            },
            EvalError::VariableNotFound(name) => {
                let mut out = String::from_str("variable not found: ");
                out.append(name.as_str());
                out
            },
            EvalError::InvalidVariableDefinition(name) => {
                let mut out = String::from_str("failed to define a variable: ");
                out.append(name.as_str());
                out
            },
            EvalError::NoHistory => String::from_str("no previous answer"),
        }
    }
}

impl Expected {
    /// The description, in words.
    pub open spec fn spec_describe(self) -> Seq<char> {
        match self {
            Expected::Term => "expected a term"@,
            Expected::Ident => "expected a name"@,
            Expected::OpenParen => "expected `(`"@,
            Expected::CloseParen => "expected `)`"@,
            Expected::Equal => "expected `=`"@,
            Expected::Let => "expected `let`"@,
            Expected::EndOfInput => "expected the end of the input"@,
        }
    }

    /// What was expected, in words.
    pub fn describe(self) -> (s: &'static str)
        ensures
            s@ == self.spec_describe(),
    {
        match self {
            Expected::Term => "expected a term",
            Expected::Ident => "expected a name",
            Expected::OpenParen => "expected `(`",
            Expected::CloseParen => "expected `)`",
            Expected::Equal => "expected `=`",
            Expected::Let => "expected `let`",
            Expected::EndOfInput => "expected the end of the input",
        }
    }
}

impl Label {
    /// The name, in words.
    pub open spec fn spec_name(self) -> Seq<char> {
        match self {
            Label::Expression => "expression"@,
            Label::FunctionCall => "function call"@,
            Label::FunctionDefinition => "function definition"@,
            Label::VariableDefinition => "variable definition"@,
        }
    }

    /// The name of the production.
    pub fn name(self) -> (s: &'static str)
        ensures
            s@ == self.spec_name(),
    {
        match self {
            Label::Expression => "expression",
            Label::FunctionCall => "function call",
            Label::FunctionDefinition => "function definition",
            Label::VariableDefinition => "variable definition",
        }
    }
}

impl SyntaxError {
    /// What the error says: what was expected where parsing stopped.
    pub fn message(&self) -> (text: String)
        ensures
            text@ == self.expected.spec_describe(),
    {
        String::from_str(self.expected.describe())
    }
}

/// An exact value as text: an integer in decimal digits, a fraction as
/// numerator, `/` and denominator, or as its numerator alone where the
/// denominator is one, and nothing for no value.  A double has no text here:
/// how it is written depends on the number of decimal places asked for.
pub open spec fn value_text(v: Number) -> Option<Seq<char>> {
    match v {
        Number::Null => Some(Seq::empty()),
        Number::Integer(i) => Some(integer_text(i)),
        Number::Rational(n, d) => if d == 1 {
            Some(integer_text(n))
        } else {
            Some(integer_text(n) + "/"@ + integer_text(d))
        },
        Number::Float(_) => None,
    }
}

impl Value {
    /// The value as text, unless it is a double.
    pub fn to_text(&self) -> (text: Option<String>)
        ensures
            match (text, value_text(self@)) {
                (Some(t), Some(s)) => t@ == s,
                (None, None) => true,
                _ => false,
            },
    {
        match self {
            Value::Null => Some(String::new()),
            Value::Integer(i) => {
                let mut out = String::new();
                push_integer(&mut out, *i as i128);
                proof {
                    assert(out@ =~= integer_text(*i as int));
                }
                Some(out)
            },
            Value::Rational(r) => {
                let mut out = String::new();
                push_integer(&mut out, r.numer() as i128);
                if r.denom() != 1 {
                    out.append("/");
                    push_integer(&mut out, r.denom() as i128);
                }
                proof {
                    if r.denominator() == 1 {
                        assert(out@ =~= integer_text(r.numerator()));
                    } else {
                        assert(out@ =~= integer_text(r.numerator()) + "/"@ + integer_text(
                            r.denominator(),
                        ));
                    }
                }
                Some(out)
            },
            Value::Float(_) => None,
        }
    }
}

} // verus!
