//! The parser: from tokens to one [`Stmt`].
//!
//! The grammar, from the tightest binding to the loosest:
//!
//! ```text
//! atom        := INT | FLOAT | "_" | IDENT | IDENT "(" [ expr { "," expr } ] ")" | "(" expr ")"
//! postfixed   := atom [ "!" ]
//! prefixed    := [ "-" ] postfixed
//! power       := prefixed [ "^" power ]
//! juxtaposed  := power { power }            -- the next term may not start with "-"
//! product     := juxtaposed { ("*" | "/" | "%") juxtaposed }
//! sum         := product { ("+" | "-") product }
//! expr        := sum
//! definition  := "let" IDENT "(" [ IDENT { "," IDENT } ] ")" "=" expr
//!              | "let" IDENT "=" expr
//! statement   := definition | expr
//! ```
//!
//! No token that may follow a term can also start one, so each repetition is
//! decided by the next token alone, and the parser never has to take back
//! what it consumed inside an expression.  The parser reads significant tokens
//! only: whitespace is removed first, by [`significant`].

use vstd::prelude::*;
use vstd::string::StringSliceAdditionalSpecFns;
use crate::expression::{expr_views, lemma_call_view, name_views, Expr, ExprView};
use crate::operators::{InfixOp, PostfixOp, PrefixOp};
use crate::statement::{Stmt, StmtView};
use crate::token::{lex, lex_spec, lexeme_views, Span, Token, TokenView};

verus! {

/// What the parser needed at the place where it stopped.
#[derive(Debug, PartialEq, Eq, Clone, Copy, Structural)]
pub enum Expected {
    /// A number, a name, `_`, `(` or `-`.
    Term,
    Ident,
    OpenParen,
    /// `)`, or a `,` before one more item.
    CloseParen,
    Equal,
    Let,
    EndOfInput,
}

/// The productions that a syntax error names as its surroundings.
#[derive(Debug, PartialEq, Eq, Clone, Copy, Structural)]
pub enum Label {
    Expression,
    FunctionCall,
    FunctionDefinition,
    VariableDefinition,
}

/// Why and where parsing stopped, in token positions.
#[derive(Debug)]
pub struct Failure {
    /// Index of the offending token; the number of tokens at the end of input.
    pub at: usize,
    pub expected: Expected,
    /// The enclosing productions, innermost first, each with the index of its
    /// first token.
    pub context: Vec<(Label, usize)>,
}

/// The mathematical content of a [`Failure`].
pub struct FailureView {
    pub at: int,
    pub expected: Expected,
    pub context: Seq<(Label, int)>,
}

impl View for Failure {
    type V = FailureView;

    open spec fn view(&self) -> FailureView {
        FailureView {
            at: self.at as int,
            expected: self.expected,
            context: self.context@.map_values(|c: (Label, usize)| (c.0, c.1 as int)),
        }
    }
}

/// A syntax error, in byte offsets of the source text.
#[derive(Debug, PartialEq)]
pub struct SyntaxError {
    /// The offending token; empty and at the end of the text where the input
    /// ended too early.
    pub span: Span,
    pub expected: Expected,
    /// The enclosing productions, innermost first, each from its first token
    /// to the end of the offending one.
    pub context_labels: Vec<(Label, Span)>,
}

/// The mathematical content of a [`SyntaxError`].
pub struct SyntaxErrorView {
    pub span: Span,
    pub expected: Expected,
    pub context_labels: Seq<(Label, Span)>,
}

impl View for SyntaxError {
    type V = SyntaxErrorView;

    open spec fn view(&self) -> SyntaxErrorView {
        SyntaxErrorView {
            span: self.span,
            expected: self.expected,
            context_labels: self.context_labels@,
        }
    }
}

/// The failure at token `at` without surroundings.
pub open spec fn fail_at(at: int, expected: Expected) -> FailureView {
    FailureView { at, expected, context: Seq::empty() }
}

/// The failure `f`, seen from the production `label` that started at `start`.
pub open spec fn within(f: FailureView, label: Label, start: int) -> FailureView {
    FailureView { at: f.at, expected: f.expected, context: f.context.push((label, start)) }
}

/// Of two failures the one that got further; the second where both stopped
/// at the same token.
pub open spec fn deepest(a: FailureView, b: FailureView) -> FailureView {
    if b.at >= a.at {
        b
    } else {
        a
    }
}

/// Whether a term can start with this token by juxtaposition.
pub open spec fn starts_term(t: TokenView) -> bool {
    t is Int || t is Float || t is Ident || t is Underscore || t is LParen
}

/// The infix operator of a product, if the token is one.
pub open spec fn product_op(t: TokenView) -> Option<InfixOp> {
    match t {
        TokenView::Asterisk => Some(InfixOp::Mul),
        TokenView::Slash => Some(InfixOp::Div),
        TokenView::Percent => Some(InfixOp::Rem),
        _ => None,
    }
}

/// The infix operator of a sum, if the token is one.
pub open spec fn sum_op(t: TokenView) -> Option<InfixOp> {
    match t {
        TokenView::Plus => Some(InfixOp::Add),
        TokenView::Minus => Some(InfixOp::Sub),
        _ => None,
    }
}

/// The node of an infix operator.
pub open spec fn infix_node(op: InfixOp, lhs: ExprView, rhs: ExprView) -> ExprView {
    ExprView::InfixOp { op, lhs: Box::new(lhs), rhs: Box::new(rhs) }
}

/// An atom that starts at token `p`: a literal, `_`, a name, a call, or an
/// expression in parentheses.
pub open spec fn parse_atom(ts: Seq<TokenView>, p: int) -> Result<(ExprView, int), FailureView>
    decreases ts.len() - p, 0nat,
{
    if !(0 <= p < ts.len()) {
        Err(fail_at(p, Expected::Term))
    } else {
        match ts[p] {
            TokenView::Int(n) => Ok((ExprView::Int(n), p + 1)),
            TokenView::Float(d) => Ok((ExprView::Float(d), p + 1)),
            TokenView::Underscore => Ok((ExprView::PrevAnswer, p + 1)),
            TokenView::Ident(name) => {
                if p + 1 < ts.len() && ts[p + 1] is LParen {
                    match parse_call_args(ts, p + 2) {
                        Ok((args, q)) => Ok((ExprView::FnCall { name, args }, q)),
                        Err(f) => Err(within(f, Label::FunctionCall, p)),
                    }
                } else {
                    Ok((ExprView::Variable(name), p + 1))
                }
            },
            TokenView::LParen => {
                match parse_expression(ts, p + 1) {
                    Ok((e, q)) => {
                        if 0 <= q < ts.len() && ts[q] is RParen {
                            Ok((e, q + 1))
                        } else {
                            Err(fail_at(q, Expected::CloseParen))
                        }
                    },
                    Err(f) => Err(f),
                }
            },
            _ => Err(fail_at(p, Expected::Term)),
        }
    }
}

/// The arguments of a call, from the token after its `(` to its `)`.
pub open spec fn parse_call_args(ts: Seq<TokenView>, p: int) -> Result<
    (Seq<ExprView>, int),
    FailureView,
>
    decreases ts.len() - p, 12nat,
{
    if 0 <= p < ts.len() && ts[p] is RParen {
        Ok((Seq::empty(), p + 1))
    } else {
        parse_args(ts, p, Seq::empty())
    }
}

/// One more argument after those in `acc`, then `,` and the rest, or `)`.
pub open spec fn parse_args(ts: Seq<TokenView>, p: int, acc: Seq<ExprView>) -> Result<
    (Seq<ExprView>, int),
    FailureView,
>
    decreases ts.len() - p, 11nat,
{
    match parse_expression(ts, p) {
        Err(f) => Err(f),
        Ok((e, q)) => {
            if !(p < q) {
                Err(fail_at(p, Expected::Term))
            } else if q < ts.len() && ts[q] is Comma {
                parse_args(ts, q + 1, acc.push(e))
            } else if q < ts.len() && ts[q] is RParen {
                Ok((acc.push(e), q + 1))
            } else {
                Err(fail_at(q, Expected::CloseParen))
            }
        },
    }
}

/// An atom, with `!` after it or without.
pub open spec fn parse_postfixed(ts: Seq<TokenView>, p: int) -> Result<(ExprView, int), FailureView>
    decreases ts.len() - p, 1nat,
{
    match parse_atom(ts, p) {
        Err(f) => Err(f),
        Ok((e, q)) => {
            if 0 <= q < ts.len() && ts[q] is Exclamation {
                Ok((ExprView::PostfixOp { op: PostfixOp::Fac, arg: Box::new(e) }, q + 1))
            } else {
                Ok((e, q))
            }
        },
    }
}

/// A postfixed term, with `-` before it or without.
pub open spec fn parse_prefixed(ts: Seq<TokenView>, p: int) -> Result<(ExprView, int), FailureView>
    decreases ts.len() - p, 2nat,
{
    if 0 <= p < ts.len() && ts[p] is Minus {
        match parse_postfixed(ts, p + 1) {
            Err(f) => Err(f),
            Ok((e, q)) => Ok((ExprView::PrefixOp { op: PrefixOp::Neg, arg: Box::new(e) }, q)),
        }
    } else {
        parse_postfixed(ts, p)
    }
}

/// A prefixed term, or one to the power that follows `^`.
pub open spec fn parse_power(ts: Seq<TokenView>, p: int) -> Result<(ExprView, int), FailureView>
    decreases ts.len() - p, 3nat,
{
    match parse_prefixed(ts, p) {
        Err(f) => Err(f),
        Ok((lhs, q)) => {
            if p < q < ts.len() && ts[q] is Caret {
                match parse_power(ts, q + 1) {
                    Err(f) => Err(f),
                    Ok((rhs, r)) => Ok((infix_node(InfixOp::Pow, lhs, rhs), r)),
                }
            } else {
                Ok((lhs, q))
            }
        },
    }
}

/// The further terms of a juxtaposition whose terms so far make `lhs`.
pub open spec fn juxtaposed_rest(ts: Seq<TokenView>, p: int, lhs: ExprView) -> Result<
    (ExprView, int),
    FailureView,
>
    decreases ts.len() - p, 4nat,
{
    if 0 <= p < ts.len() && starts_term(ts[p]) {
        match parse_power(ts, p) {
            Err(f) => Err(f),
            Ok((rhs, q)) => {
                if p < q <= ts.len() {
                    juxtaposed_rest(ts, q, infix_node(InfixOp::Mul, lhs, rhs))
                } else {
                    Err(fail_at(p, Expected::Term))
                }
            },
        }
    } else {
        Ok((lhs, p))
    }
}

/// Powers that follow each other: their product, from the left.
pub open spec fn parse_juxtaposed(ts: Seq<TokenView>, p: int) -> Result<
    (ExprView, int),
    FailureView,
>
    decreases ts.len() - p, 5nat,
{
    match parse_power(ts, p) {
        Err(f) => Err(f),
        Ok((lhs, q)) => {
            if p < q <= ts.len() {
                juxtaposed_rest(ts, q, lhs)
            } else {
                Err(fail_at(p, Expected::Term))
            }
        },
    }
}

/// The further factors of a product whose factors so far make `lhs`.
pub open spec fn product_rest(ts: Seq<TokenView>, p: int, lhs: ExprView) -> Result<
    (ExprView, int),
    FailureView,
>
    decreases ts.len() - p, 6nat,
{
    if 0 <= p < ts.len() && product_op(ts[p]) is Some {
        match parse_juxtaposed(ts, p + 1) {
            Err(f) => Err(f),
            Ok((rhs, q)) => {
                if p < q <= ts.len() {
                    product_rest(ts, q, infix_node(product_op(ts[p])->0, lhs, rhs))
                } else {
                    Err(fail_at(p, Expected::Term))
                }
            },
        }
    } else {
        Ok((lhs, p))
    }
}

/// Juxtapositions joined by `*`, `/` and `%`, from the left.
pub open spec fn parse_product(ts: Seq<TokenView>, p: int) -> Result<(ExprView, int), FailureView>
    decreases ts.len() - p, 7nat,
{
    match parse_juxtaposed(ts, p) {
        Err(f) => Err(f),
        Ok((lhs, q)) => {
            if p < q <= ts.len() {
                product_rest(ts, q, lhs)
            } else {
                Err(fail_at(p, Expected::Term))
            }
        },
    }
}

/// The further summands of a sum whose summands so far make `lhs`.
pub open spec fn sum_rest(ts: Seq<TokenView>, p: int, lhs: ExprView) -> Result<
    (ExprView, int),
    FailureView,
>
    decreases ts.len() - p, 8nat,
{
    if 0 <= p < ts.len() && sum_op(ts[p]) is Some {
        match parse_product(ts, p + 1) {
            Err(f) => Err(f),
            Ok((rhs, q)) => {
                if p < q <= ts.len() {
                    sum_rest(ts, q, infix_node(sum_op(ts[p])->0, lhs, rhs))
                } else {
                    Err(fail_at(p, Expected::Term))
                }
            },
        }
    } else {
        Ok((lhs, p))
    }
}

/// Products joined by `+` and `-`, from the left.
pub open spec fn parse_sum(ts: Seq<TokenView>, p: int) -> Result<(ExprView, int), FailureView>
    decreases ts.len() - p, 9nat,
{
    match parse_product(ts, p) {
        Err(f) => Err(f),
        Ok((lhs, q)) => {
            if p < q <= ts.len() {
                sum_rest(ts, q, lhs)
            } else {
                Err(fail_at(p, Expected::Term))
            }
        },
    }
}

/// An expression that starts at token `p`: the expression and the position
/// after it, or the failure, which names the expression as its surroundings.
pub open spec fn parse_expression(ts: Seq<TokenView>, p: int) -> Result<
    (ExprView, int),
    FailureView,
>
    decreases ts.len() - p, 10nat,
{
    match parse_sum(ts, p) {
        Err(f) => Err(within(f, Label::Expression, p)),
        Ok(r) => Ok(r),
    }
}

/// The further parameter names of a definition after those in `acc`.
pub open spec fn params_rest(ts: Seq<TokenView>, p: int, acc: Seq<Seq<char>>) -> Result<
    (Seq<Seq<char>>, int),
    FailureView,
>
    decreases ts.len() - p,
{
    if 0 <= p < ts.len() && ts[p] is Comma {
        if p + 1 < ts.len() && ts[p + 1] is Ident {
            params_rest(ts, p + 2, acc.push(ts[p + 1]->Ident_0))
        } else {
            Err(fail_at(p + 1, Expected::Ident))
        }
    } else {
        Ok((acc, p))
    }
}

/// The parameter names of a definition, from the token after its `(`.
pub open spec fn parse_params(ts: Seq<TokenView>, p: int) -> Result<
    (Seq<Seq<char>>, int),
    FailureView,
> {
    if 0 <= p < ts.len() && ts[p] is Ident {
        params_rest(ts, p + 1, seq![ts[p]->Ident_0])
    } else {
        Ok((Seq::empty(), p))
    }
}

/// An expression that fills the input from token `p` to the end.
pub open spec fn parse_to_end(ts: Seq<TokenView>, p: int) -> Result<ExprView, FailureView> {
    match parse_expression(ts, p) {
        Err(f) => Err(f),
        Ok((e, q)) => {
            if q == ts.len() {
                Ok(e)
            } else {
                Err(fail_at(q, Expected::EndOfInput))
            }
        },
    }
}

/// `let name(parameters) = body` over the whole input.
pub open spec fn function_definition_body(ts: Seq<TokenView>) -> Result<StmtView, FailureView> {
    if !(0 < ts.len() && ts[0] is Let) {
        Err(fail_at(0, Expected::Let))
    } else if !(1 < ts.len() && ts[1] is Ident) {
        Err(fail_at(1, Expected::Ident))
    } else if !(2 < ts.len() && ts[2] is LParen) {
        Err(fail_at(2, Expected::OpenParen))
    } else {
        match parse_params(ts, 3) {
            Err(f) => Err(f),
            Ok((arg_names, q)) => {
                if !(0 <= q < ts.len() && ts[q] is RParen) {
                    Err(fail_at(q, Expected::CloseParen))
                } else if !(q + 1 < ts.len() && ts[q + 1] is Equal) {
                    Err(fail_at(q + 1, Expected::Equal))
                } else {
                    match parse_to_end(ts, q + 2) {
                        Err(f) => Err(f),
                        Ok(body) => Ok(
                            StmtView::DefFun { name: ts[1]->Ident_0, arg_names, body },
                        ),
                    }
                }
            },
        }
    }
}

/// The whole input as `let name(params) = body`.
pub open spec fn parse_function_definition(ts: Seq<TokenView>) -> Result<StmtView, FailureView> {
    match function_definition_body(ts) {
        Err(f) => Err(within(f, Label::FunctionDefinition, 0)),
        Ok(s) => Ok(s),
    }
}

/// `let name = expr` over the whole input.
pub open spec fn variable_definition_body(ts: Seq<TokenView>) -> Result<StmtView, FailureView> {
    if !(0 < ts.len() && ts[0] is Let) {
        Err(fail_at(0, Expected::Let))
    } else if !(1 < ts.len() && ts[1] is Ident) {
        Err(fail_at(1, Expected::Ident))
    } else if !(2 < ts.len() && ts[2] is Equal) {
        Err(fail_at(2, Expected::Equal))
    } else {
        match parse_to_end(ts, 3) {
            Err(f) => Err(f),
            Ok(expr) => Ok(StmtView::DefVar { name: ts[1]->Ident_0, expr }),
        }
    }
}

/// The whole input as `let name = expr`.
pub open spec fn parse_variable_definition(ts: Seq<TokenView>) -> Result<StmtView, FailureView> {
    match variable_definition_body(ts) {
        Err(f) => Err(within(f, Label::VariableDefinition, 0)),
        Ok(s) => Ok(s),
    }
}

/// The whole input as one statement: a function definition, else a variable
/// definition, else an expression.  Where none fits, the failure of the
/// attempt that got furthest, and of the later one among equals.
pub open spec fn parse_statement(ts: Seq<TokenView>) -> Result<StmtView, FailureView> {
    match parse_function_definition(ts) {
        Ok(s) => Ok(s),
        Err(f1) => match parse_variable_definition(ts) {
            Ok(s) => Ok(s),
            Err(f2) => match parse_to_end(ts, 0) {
                Ok(e) => Ok(StmtView::Expr(e)),
                Err(f3) => Err(deepest(deepest(f1, f2), f3)),
            },
        },
    }
}

/// Every production that succeeds consumes at least one token and stays
/// within the input.  So the tests of the positions in the grammar above,
/// which are there for the recursion to be well-founded, never fail.
pub proof fn lemma_atom_advances(ts: Seq<TokenView>, p: int)
    requires
        0 <= p,
    ensures
        parse_atom(ts, p) matches Ok(r) ==> p < r.1 <= ts.len(),
    decreases ts.len() - p, 0nat,
{
    if 0 <= p < ts.len() {
        match ts[p] {
            TokenView::Ident(name) => {
                if p + 1 < ts.len() && ts[p + 1] is LParen {
                    lemma_call_args_advance(ts, p + 2);
                }
            },
            TokenView::LParen => {
                lemma_expression_advances(ts, p + 1);
            },
            _ => {},
        }
    }
}

pub proof fn lemma_call_args_advance(ts: Seq<TokenView>, p: int)
    requires
        0 <= p,
    ensures
        parse_call_args(ts, p) matches Ok(r) ==> p < r.1 <= ts.len(),
    decreases ts.len() - p, 12nat,
{
    if !(0 <= p < ts.len() && ts[p] is RParen) {
        lemma_args_advance(ts, p, Seq::empty());
    }
}

pub proof fn lemma_args_advance(ts: Seq<TokenView>, p: int, acc: Seq<ExprView>)
    requires
        0 <= p,
    ensures
        parse_args(ts, p, acc) matches Ok(r) ==> p < r.1 <= ts.len(),
    decreases ts.len() - p, 11nat,
{
    lemma_expression_advances(ts, p);
    match parse_expression(ts, p) {
        Ok((e, q)) => {
            if p < q && q < ts.len() && ts[q] is Comma {
                lemma_args_advance(ts, q + 1, acc.push(e));
            }
        },
        Err(_) => {},
    }
}

pub proof fn lemma_postfixed_advances(ts: Seq<TokenView>, p: int)
    requires
        0 <= p,
    ensures
        parse_postfixed(ts, p) matches Ok(r) ==> p < r.1 <= ts.len(),
    decreases ts.len() - p, 1nat,
{
    lemma_atom_advances(ts, p);
}

pub proof fn lemma_prefixed_advances(ts: Seq<TokenView>, p: int)
    requires
        0 <= p,
    ensures
        parse_prefixed(ts, p) matches Ok(r) ==> p < r.1 <= ts.len(),
    decreases ts.len() - p, 2nat,
{
    if 0 <= p < ts.len() && ts[p] is Minus {
        lemma_postfixed_advances(ts, p + 1);
    } else {
        lemma_postfixed_advances(ts, p);
    }
}

pub proof fn lemma_power_advances(ts: Seq<TokenView>, p: int)
    requires
        0 <= p,
    ensures
        parse_power(ts, p) matches Ok(r) ==> p < r.1 <= ts.len(),
    decreases ts.len() - p, 3nat,
{
    lemma_prefixed_advances(ts, p);
    match parse_prefixed(ts, p) {
        Ok((lhs, q)) => {
            if p < q < ts.len() && ts[q] is Caret {
                lemma_power_advances(ts, q + 1);
            }
        },
        Err(_) => {},
    }
}

pub proof fn lemma_juxtaposed_rest_advances(ts: Seq<TokenView>, p: int, lhs: ExprView)
    requires
        0 <= p <= ts.len(),
    ensures
        juxtaposed_rest(ts, p, lhs) matches Ok(r) ==> p <= r.1 <= ts.len(),
    decreases ts.len() - p, 4nat,
{
    if 0 <= p < ts.len() && starts_term(ts[p]) {
        lemma_power_advances(ts, p);
        match parse_power(ts, p) {
            Ok((rhs, q)) => {
                lemma_juxtaposed_rest_advances(ts, q, infix_node(InfixOp::Mul, lhs, rhs));
            },
            Err(_) => {},
        }
    }
}

pub proof fn lemma_juxtaposed_advances(ts: Seq<TokenView>, p: int)
    requires
        0 <= p,
    ensures
        parse_juxtaposed(ts, p) matches Ok(r) ==> p < r.1 <= ts.len(),
    decreases ts.len() - p, 5nat,
{
    lemma_power_advances(ts, p);
    match parse_power(ts, p) {
        Ok((lhs, q)) => {
            lemma_juxtaposed_rest_advances(ts, q, lhs);
        },
        Err(_) => {},
    }
}

pub proof fn lemma_product_rest_advances(ts: Seq<TokenView>, p: int, lhs: ExprView)
    requires
        0 <= p <= ts.len(),
    ensures
        product_rest(ts, p, lhs) matches Ok(r) ==> p <= r.1 <= ts.len(),
    decreases ts.len() - p, 6nat,
{
    if 0 <= p < ts.len() && product_op(ts[p]) is Some {
        lemma_juxtaposed_advances(ts, p + 1);
        match parse_juxtaposed(ts, p + 1) {
            Ok((rhs, q)) => {
                lemma_product_rest_advances(
                    ts,
                    q,
                    infix_node(product_op(ts[p])->0, lhs, rhs),
                );
            },
            Err(_) => {},
        }
    }
}

pub proof fn lemma_product_advances(ts: Seq<TokenView>, p: int)
    requires
        0 <= p,
    ensures
        parse_product(ts, p) matches Ok(r) ==> p < r.1 <= ts.len(),
    decreases ts.len() - p, 7nat,
{
    lemma_juxtaposed_advances(ts, p);
    match parse_juxtaposed(ts, p) {
        Ok((lhs, q)) => {
            lemma_product_rest_advances(ts, q, lhs);
        },
        Err(_) => {},
    }
}

pub proof fn lemma_sum_rest_advances(ts: Seq<TokenView>, p: int, lhs: ExprView)
    requires
        0 <= p <= ts.len(),
    ensures
        sum_rest(ts, p, lhs) matches Ok(r) ==> p <= r.1 <= ts.len(),
    decreases ts.len() - p, 8nat,
{
    if 0 <= p < ts.len() && sum_op(ts[p]) is Some {
        lemma_product_advances(ts, p + 1);
        match parse_product(ts, p + 1) {
            Ok((rhs, q)) => {
                lemma_sum_rest_advances(ts, q, infix_node(sum_op(ts[p])->0, lhs, rhs));
            },
            Err(_) => {},
        }
    }
}

pub proof fn lemma_sum_advances(ts: Seq<TokenView>, p: int)
    requires
        0 <= p,
    ensures
        parse_sum(ts, p) matches Ok(r) ==> p < r.1 <= ts.len(),
    decreases ts.len() - p, 9nat,
{
    lemma_product_advances(ts, p);
    match parse_product(ts, p) {
        Ok((lhs, q)) => {
            lemma_sum_rest_advances(ts, q, lhs);
        },
        Err(_) => {},
    }
}

pub proof fn lemma_expression_advances(ts: Seq<TokenView>, p: int)
    requires
        0 <= p,
    ensures
        parse_expression(ts, p) matches Ok(r) ==> p < r.1 <= ts.len(),
    decreases ts.len() - p, 10nat,
{
    lemma_sum_advances(ts, p);
}

/// The tokens without their spans.
pub open spec fn token_views(tokens: Seq<(Token, Span)>) -> Seq<TokenView> {
    tokens.map_values(|t: (Token, Span)| t.0@)
}

/// The spans without their tokens.
pub open spec fn token_spans(tokens: Seq<(Token, Span)>) -> Seq<Span> {
    tokens.map_values(|t: (Token, Span)| t.1)
}

/// The tokens other than whitespace, in order.
pub open spec fn without_spaces(lexemes: Seq<(TokenView, Span)>) -> Seq<(TokenView, Span)>
    decreases lexemes.len(),
{
    if lexemes.len() == 0 {
        lexemes
    } else if lexemes.last().0 is Space {
        without_spaces(lexemes.drop_last())
    } else {
        without_spaces(lexemes.drop_last()).push(lexemes.last())
    }
}

/// The span of the token at index `at`; empty at `end` where there is none.
pub open spec fn span_at(spans: Seq<Span>, at: int, end: usize) -> Span {
    if 0 <= at < spans.len() {
        spans[at]
    } else {
        Span { start: end, end }
    }
}

/// The failure `f` in byte offsets, given the tokens' spans and the length
/// of the text.
pub open spec fn located(f: FailureView, spans: Seq<Span>, end: usize) -> SyntaxErrorView {
    SyntaxErrorView {
        span: span_at(spans, f.at, end),
        expected: f.expected,
        context_labels: f.context.map_values(
            |c: (Label, int)|
                (
                    c.0,
                    Span { start: span_at(spans, c.1, end).start, end: span_at(spans, f.at, end).end },
                ),
        ),
    }
}

/// Whether `r` is the statement or the single error that `s` stands for.
pub open spec fn reports(
    r: Result<Stmt, Vec<SyntaxError>>,
    s: Result<StmtView, FailureView>,
    spans: Seq<Span>,
    end: usize,
) -> bool {
    match s {
        Ok(stmt) => r matches Ok(parsed) && parsed@ == stmt,
        Err(f) => r matches Err(errors) && errors@.len() == 1 && errors@[0]@ == located(
            f,
            spans,
            end,
        ),
    }
}

/// Whether `r` is the expression or the single error that `s` stands for.
pub open spec fn reports_expr(
    r: Result<Expr, Vec<SyntaxError>>,
    s: Result<ExprView, FailureView>,
    spans: Seq<Span>,
    end: usize,
) -> bool {
    match s {
        Ok(expr) => r matches Ok(parsed) && parsed@ == expr,
        Err(f) => r matches Err(errors) && errors@.len() == 1 && errors@[0]@ == located(
            f,
            spans,
            end,
        ),
    }
}

/// Whether the executable result `r` is what the grammar gives.
pub open spec fn agrees(r: Result<(Expr, usize), Failure>, s: Result<(ExprView, int), FailureView>) -> bool {
    match (r, s) {
        (Ok(a), Ok(b)) => a.0@ == b.0 && a.1 == b.1,
        (Err(f), Err(g)) => f@ == g,
        _ => false,
    }
}

/// Whether the executable result `r` is what the grammar gives.
pub open spec fn agrees_args(
    r: Result<(Vec<Expr>, usize), Failure>,
    s: Result<(Seq<ExprView>, int), FailureView>,
) -> bool {
    match (r, s) {
        (Ok(a), Ok(b)) => expr_views(a.0@) == b.0 && a.1 == b.1,
        (Err(f), Err(g)) => f@ == g,
        _ => false,
    }
}

/// Whether the executable result `r` is what the grammar gives.
pub open spec fn agrees_names(
    r: Result<(Vec<String>, usize), Failure>,
    s: Result<(Seq<Seq<char>>, int), FailureView>,
) -> bool {
    match (r, s) {
        (Ok(a), Ok(b)) => name_views(a.0@) == b.0 && a.1 == b.1,
        (Err(f), Err(g)) => f@ == g,
        _ => false,
    }
}

/// Whether the executable result `r` is what the grammar gives.
pub open spec fn agrees_stmt(r: Result<Stmt, Failure>, s: Result<StmtView, FailureView>) -> bool {
    match (r, s) {
        (Ok(a), Ok(b)) => a@ == b,
        (Err(f), Err(g)) => f@ == g,
        _ => false,
    }
}

/// Whether the executable result `r` is what the grammar gives.
pub open spec fn agrees_expr(r: Result<Expr, Failure>, s: Result<ExprView, FailureView>) -> bool {
    match (r, s) {
        (Ok(a), Ok(b)) => a@ == b,
        (Err(f), Err(g)) => f@ == g,
        _ => false,
    }
}

fn fail(at: usize, expected: Expected) -> (f: Failure)
    ensures
        f@ == fail_at(at as int, expected),
{
    let f = Failure { at, expected, context: Vec::new() };
    proof {
        assert(f@.context =~= Seq::empty());
    }
    f
}

fn enclose(f: Failure, label: Label, start: usize) -> (g: Failure)
    ensures
        g@ == within(f@, label, start as int),
{
    let mut g = f;
    g.context.push((label, start));
    proof {
        assert(g@.context =~= f@.context.push((label, start as int)));
    }
    g
}

fn make_infix(op: InfixOp, lhs: Expr, rhs: Expr) -> (e: Expr)
    ensures
        e@ == infix_node(op, lhs@, rhs@),
{
    Expr::InfixOp { op, lhs: Box::new(lhs), rhs: Box::new(rhs) }
}

fn atom(tokens: &Vec<(Token, Span)>, p: usize) -> (r: Result<(Expr, usize), Failure>)
    requires
        p <= tokens.len(),
    ensures
        agrees(r, parse_atom(token_views(tokens@), p as int)),
        r matches Ok(a) ==> p < a.1 <= tokens.len(),
    decreases tokens.len() - p, 0nat,
{
    if p >= tokens.len() {
        return Err(fail(p, Expected::Term));
    }
    match &tokens[p].0 {
        Token::Int(n) => Ok((Expr::Int(*n), p + 1)),
        Token::Float(d) => Ok((Expr::Float(*d), p + 1)),
        Token::Underscore => Ok((Expr::PrevAnswer, p + 1)),
        Token::Ident(name) => {
            if p + 1 < tokens.len() && is_lparen(&tokens[p + 1].0) {
                match call_arguments(tokens, p + 2) {
                    Ok((args, q)) => {
                        proof {
                            lemma_call_view(*name, args);
                        }
                        Ok((Expr::FnCall { name: name.clone(), args }, q))
                    },
                    Err(f) => Err(enclose(f, Label::FunctionCall, p)),
                }
            } else {
                Ok((Expr::Variable(name.clone()), p + 1))
            }
        },
        Token::LParen => {
            match expression_at(tokens, p + 1) {
                Ok((e, q)) => {
                    if q < tokens.len() && is_rparen(&tokens[q].0) {
                        Ok((e, q + 1))
                    } else {
                        Err(fail(q, Expected::CloseParen))
                    }
                },
                Err(f) => Err(f),
            }
        },
        _ => Err(fail(p, Expected::Term)),
    }
}

fn is_lparen(t: &Token) -> (r: bool)
    ensures
        r == (t@ is LParen),
{
    match t {
        Token::LParen => true,
        _ => false,
    }
}

fn is_rparen(t: &Token) -> (r: bool)
    ensures
        r == (t@ is RParen),
{
    match t {
        Token::RParen => true,
        _ => false,
    }
}

fn is_comma(t: &Token) -> (r: bool)
    ensures
        r == (t@ is Comma),
{
    match t {
        Token::Comma => true,
        _ => false,
    }
}

fn is_equal(t: &Token) -> (r: bool)
    ensures
        r == (t@ is Equal),
{
    match t {
        Token::Equal => true,
        _ => false,
    }
}

fn is_let(t: &Token) -> (r: bool)
    ensures
        r == (t@ is Let),
{
    match t {
        Token::Let => true,
        _ => false,
    }
}

fn call_arguments(tokens: &Vec<(Token, Span)>, p: usize) -> (r: Result<(Vec<Expr>, usize), Failure>)
    requires
        p <= tokens.len(),
    ensures
        agrees_args(r, parse_call_args(token_views(tokens@), p as int)),
        r matches Ok(a) ==> p < a.1 <= tokens.len(),
    decreases tokens.len() - p, 12nat,
{
    if p < tokens.len() && is_rparen(&tokens[p].0) {
        let args: Vec<Expr> = Vec::new();
        proof {
            assert(expr_views(args@) =~= Seq::empty());
        }
        Ok((args, p + 1))
    } else {
        let args: Vec<Expr> = Vec::new();
        proof {
            assert(expr_views(args@) =~= Seq::empty());
        }
        arguments(tokens, p, args)
    }
}

fn arguments(tokens: &Vec<(Token, Span)>, p: usize, acc: Vec<Expr>) -> (r: Result<
    (Vec<Expr>, usize),
    Failure,
>)
    requires
        p <= tokens.len(),
    ensures
        agrees_args(r, parse_args(token_views(tokens@), p as int, expr_views(acc@))),
        r matches Ok(a) ==> p < a.1 <= tokens.len(),
    decreases tokens.len() - p, 11nat,
{
    match expression_at(tokens, p) {
        Err(f) => Err(f),
        Ok((e, q)) => {
            let ghost before = acc@;
            let ghost item = e@;
            let mut acc = acc;
            acc.push(e);
            proof {
                assert(expr_views(acc@) =~= expr_views(before).push(item));
            }
            if q < tokens.len() && is_comma(&tokens[q].0) {
                arguments(tokens, q + 1, acc)
            } else if q < tokens.len() && is_rparen(&tokens[q].0) {
                Ok((acc, q + 1))
            } else {
                Err(fail(q, Expected::CloseParen))
            }
        },
    }
}

fn postfixed(tokens: &Vec<(Token, Span)>, p: usize) -> (r: Result<(Expr, usize), Failure>)
    requires
        p <= tokens.len(),
    ensures
        agrees(r, parse_postfixed(token_views(tokens@), p as int)),
        r matches Ok(a) ==> p < a.1 <= tokens.len(),
    decreases tokens.len() - p, 1nat,
{
    match atom(tokens, p) {
        Err(f) => Err(f),
        Ok((e, q)) => {
            let bang = q < tokens.len() && match &tokens[q].0 {
                Token::Exclamation => true,
                _ => false,
            };
            if bang {
                Ok((Expr::PostfixOp { op: PostfixOp::Fac, arg: Box::new(e) }, q + 1))
            } else {
                Ok((e, q))
            }
        },
    }
}

fn prefixed(tokens: &Vec<(Token, Span)>, p: usize) -> (r: Result<(Expr, usize), Failure>)
    requires
        p <= tokens.len(),
    ensures
        agrees(r, parse_prefixed(token_views(tokens@), p as int)),
        r matches Ok(a) ==> p < a.1 <= tokens.len(),
    decreases tokens.len() - p, 2nat,
{
    let minus = p < tokens.len() && match &tokens[p].0 {
        Token::Minus => true,
        _ => false,
    };
    if minus {
        match postfixed(tokens, p + 1) {
            Err(f) => Err(f),
            Ok((e, q)) => Ok((Expr::PrefixOp { op: PrefixOp::Neg, arg: Box::new(e) }, q)),
        }
    } else {
        postfixed(tokens, p)
    }
}

fn power(tokens: &Vec<(Token, Span)>, p: usize) -> (r: Result<(Expr, usize), Failure>)
    requires
        p <= tokens.len(),
    ensures
        agrees(r, parse_power(token_views(tokens@), p as int)),
        r matches Ok(a) ==> p < a.1 <= tokens.len(),
    decreases tokens.len() - p, 3nat,
{
    match prefixed(tokens, p) {
        Err(f) => Err(f),
        Ok((lhs, q)) => {
            let caret = q < tokens.len() && match &tokens[q].0 {
                Token::Caret => true,
                _ => false,
            };
            if caret {
                match power(tokens, q + 1) {
                    Err(f) => Err(f),
                    Ok((rhs, r)) => Ok((make_infix(InfixOp::Pow, lhs, rhs), r)),
                }
            } else {
                Ok((lhs, q))
            }
        },
    }
}

fn can_start_term(t: &Token) -> (r: bool)
    ensures
        r == starts_term(t@),
{
    match t {
        Token::Int(_) | Token::Float(_) | Token::Ident(_) | Token::Underscore | Token::LParen => true,
        _ => false,
    }
}

fn juxtaposed_tail(tokens: &Vec<(Token, Span)>, p: usize, lhs: Expr) -> (r: Result<
    (Expr, usize),
    Failure,
>)
    requires
        p <= tokens.len(),
    ensures
        agrees(r, juxtaposed_rest(token_views(tokens@), p as int, lhs@)),
        r matches Ok(a) ==> p <= a.1 <= tokens.len(),
    decreases tokens.len() - p, 4nat,
{
    if p < tokens.len() && can_start_term(&tokens[p].0) {
        match power(tokens, p) {
            Err(f) => Err(f),
            Ok((rhs, q)) => juxtaposed_tail(tokens, q, make_infix(InfixOp::Mul, lhs, rhs)),
        }
    } else {
        Ok((lhs, p))
    }
}

fn juxtaposed(tokens: &Vec<(Token, Span)>, p: usize) -> (r: Result<(Expr, usize), Failure>)
    requires
        p <= tokens.len(),
    ensures
        agrees(r, parse_juxtaposed(token_views(tokens@), p as int)),
        r matches Ok(a) ==> p < a.1 <= tokens.len(),
    decreases tokens.len() - p, 5nat,
{
    match power(tokens, p) {
        Err(f) => Err(f),
        Ok((lhs, q)) => juxtaposed_tail(tokens, q, lhs),
    }
}

fn product_operator(t: &Token) -> (r: Option<InfixOp>)
    ensures
        r == product_op(t@),
{
    match t {
        Token::Asterisk => Some(InfixOp::Mul),
        Token::Slash => Some(InfixOp::Div),
        Token::Percent => Some(InfixOp::Rem),
        _ => None,
    }
}

fn sum_operator(t: &Token) -> (r: Option<InfixOp>)
    ensures
        r == sum_op(t@),
{
    match t {
        Token::Plus => Some(InfixOp::Add),
        Token::Minus => Some(InfixOp::Sub),
        _ => None,
    }
}

fn product_tail(tokens: &Vec<(Token, Span)>, p: usize, lhs: Expr) -> (r: Result<
    (Expr, usize),
    Failure,
>)
    requires
        p <= tokens.len(),
    ensures
        agrees(r, product_rest(token_views(tokens@), p as int, lhs@)),
        r matches Ok(a) ==> p <= a.1 <= tokens.len(),
    decreases tokens.len() - p, 6nat,
{
    if p >= tokens.len() {
        return Ok((lhs, p));
    }
    match product_operator(&tokens[p].0) {
        None => Ok((lhs, p)),
        Some(op) => match juxtaposed(tokens, p + 1) {
            Err(f) => Err(f),
            Ok((rhs, q)) => product_tail(tokens, q, make_infix(op, lhs, rhs)),
        },
    }
}

fn product(tokens: &Vec<(Token, Span)>, p: usize) -> (r: Result<(Expr, usize), Failure>)
    requires
        p <= tokens.len(),
    ensures
        agrees(r, parse_product(token_views(tokens@), p as int)),
        r matches Ok(a) ==> p < a.1 <= tokens.len(),
    decreases tokens.len() - p, 7nat,
{
    match juxtaposed(tokens, p) {
        Err(f) => Err(f),
        Ok((lhs, q)) => product_tail(tokens, q, lhs),
    }
}

fn sum_tail(tokens: &Vec<(Token, Span)>, p: usize, lhs: Expr) -> (r: Result<(Expr, usize), Failure>)
    requires
        p <= tokens.len(),
    ensures
        agrees(r, sum_rest(token_views(tokens@), p as int, lhs@)),
        r matches Ok(a) ==> p <= a.1 <= tokens.len(),
    decreases tokens.len() - p, 8nat,
{
    if p >= tokens.len() {
        return Ok((lhs, p));
    }
    match sum_operator(&tokens[p].0) {
        None => Ok((lhs, p)),
        Some(op) => match product(tokens, p + 1) {
            Err(f) => Err(f),
            Ok((rhs, q)) => sum_tail(tokens, q, make_infix(op, lhs, rhs)),
        },
    }
}

fn sum(tokens: &Vec<(Token, Span)>, p: usize) -> (r: Result<(Expr, usize), Failure>)
    requires
        p <= tokens.len(),
    ensures
        agrees(r, parse_sum(token_views(tokens@), p as int)),
        r matches Ok(a) ==> p < a.1 <= tokens.len(),
    decreases tokens.len() - p, 9nat,
{
    match product(tokens, p) {
        Err(f) => Err(f),
        Ok((lhs, q)) => sum_tail(tokens, q, lhs),
    }
}

fn expression_at(tokens: &Vec<(Token, Span)>, p: usize) -> (r: Result<(Expr, usize), Failure>)
    requires
        p <= tokens.len(),
    ensures
        agrees(r, parse_expression(token_views(tokens@), p as int)),
        r matches Ok(a) ==> p < a.1 <= tokens.len(),
    decreases tokens.len() - p, 10nat,
{
    match sum(tokens, p) {
        Err(f) => Err(enclose(f, Label::Expression, p)),
        Ok(r) => Ok(r),
    }
}

fn parameters_tail(tokens: &Vec<(Token, Span)>, p: usize, acc: Vec<String>) -> (r: Result<
    (Vec<String>, usize),
    Failure,
>)
    requires
        p <= tokens.len(),
    ensures
        agrees_names(r, params_rest(token_views(tokens@), p as int, name_views(acc@))),
        r matches Ok(a) ==> p <= a.1 <= tokens.len(),
    decreases tokens.len() - p,
{
    if p < tokens.len() && is_comma(&tokens[p].0) {
        if p + 1 < tokens.len() {
            if let Token::Ident(name) = &tokens[p + 1].0 {
                let ghost before = acc@;
                let mut acc = acc;
                acc.push(name.clone());
                proof {
                    assert(name_views(acc@) =~= name_views(before).push(name@));
                }
                return parameters_tail(tokens, p + 2, acc);
            }
        }
        Err(fail(p + 1, Expected::Ident))
    } else {
        Ok((acc, p))
    }
}

fn parameters(tokens: &Vec<(Token, Span)>, p: usize) -> (r: Result<(Vec<String>, usize), Failure>)
    requires
        p <= tokens.len(),
    ensures
        agrees_names(r, parse_params(token_views(tokens@), p as int)),
        r matches Ok(a) ==> p <= a.1 <= tokens.len(),
{
    let mut acc: Vec<String> = Vec::new();
    if p < tokens.len() {
        if let Token::Ident(name) = &tokens[p].0 {
            acc.push(name.clone());
            proof {
                assert(name_views(acc@) =~= seq![name@]);
            }
            return parameters_tail(tokens, p + 1, acc);
        }
    }
    proof {
        assert(name_views(acc@) =~= Seq::empty());
    }
    Ok((acc, p))
}

fn to_end(tokens: &Vec<(Token, Span)>, p: usize) -> (r: Result<Expr, Failure>)
    requires
        p <= tokens.len(),
    ensures
        agrees_expr(r, parse_to_end(token_views(tokens@), p as int)),
{
    match expression_at(tokens, p) {
        Err(f) => Err(f),
        Ok((e, q)) => {
            if q == tokens.len() {
                Ok(e)
            } else {
                Err(fail(q, Expected::EndOfInput))
            }
        },
    }
}

/// The name of the definition, where the input starts with `let` and a name.
fn definition_name(tokens: &Vec<(Token, Span)>) -> (r: Result<String, Failure>)
    ensures
        match r {
            Ok(name) => 1 < tokens.len() && token_views(tokens@)[0] is Let && token_views(
                tokens@,
            )[1] == TokenView::Ident(name@),
            Err(f) => if 0 < tokens.len() && token_views(tokens@)[0] is Let {
                !(1 < tokens.len() && token_views(tokens@)[1] is Ident) && f@ == fail_at(
                    1,
                    Expected::Ident,
                )
            } else {
                f@ == fail_at(0, Expected::Let)
            },
        },
{
    if !(0 < tokens.len() && is_let(&tokens[0].0)) {
        return Err(fail(0, Expected::Let));
    }
    if 1 < tokens.len() {
        if let Token::Ident(name) = &tokens[1].0 {
            return Ok(name.clone());
        }
    }
    Err(fail(1, Expected::Ident))
}

fn function_definition_inner(tokens: &Vec<(Token, Span)>) -> (r: Result<Stmt, Failure>)
    ensures
        agrees_stmt(r, function_definition_body(token_views(tokens@))),
{
    let name = match definition_name(tokens) {
        Ok(name) => name,
        Err(f) => {
            return Err(f);
        },
    };
    if !(2 < tokens.len() && is_lparen(&tokens[2].0)) {
        return Err(fail(2, Expected::OpenParen));
    }
    match parameters(tokens, 3) {
        Err(f) => Err(f),
        Ok((arg_names, q)) => {
            if !(q < tokens.len() && is_rparen(&tokens[q].0)) {
                Err(fail(q, Expected::CloseParen))
            } else if !(q + 1 < tokens.len() && is_equal(&tokens[q + 1].0)) {
                Err(fail(q + 1, Expected::Equal))
            } else {
                match to_end(tokens, q + 2) {
                    Err(f) => Err(f),
                    Ok(body) => Ok(Stmt::DefFun { name, arg_names, body }),
                }
            }
        },
    }
}

fn function_definition_at(tokens: &Vec<(Token, Span)>) -> (r: Result<Stmt, Failure>)
    ensures
        agrees_stmt(r, parse_function_definition(token_views(tokens@))),
{
    match function_definition_inner(tokens) {
        Err(f) => Err(enclose(f, Label::FunctionDefinition, 0)),
        Ok(s) => Ok(s),
    }
}

fn variable_definition_inner(tokens: &Vec<(Token, Span)>) -> (r: Result<Stmt, Failure>)
    ensures
        agrees_stmt(r, variable_definition_body(token_views(tokens@))),
{
    let name = match definition_name(tokens) {
        Ok(name) => name,
        Err(f) => {
            return Err(f);
        },
    };
    if !(2 < tokens.len() && is_equal(&tokens[2].0)) {
        return Err(fail(2, Expected::Equal));
    }
    match to_end(tokens, 3) {
        Err(f) => Err(f),
        Ok(expr) => Ok(Stmt::DefVar { name, expr }),
    }
}

fn variable_definition_at(tokens: &Vec<(Token, Span)>) -> (r: Result<Stmt, Failure>)
    ensures
        agrees_stmt(r, parse_variable_definition(token_views(tokens@))),
{
    match variable_definition_inner(tokens) {
        Err(f) => Err(enclose(f, Label::VariableDefinition, 0)),
        Ok(s) => Ok(s),
    }
}

fn statement_at(tokens: &Vec<(Token, Span)>) -> (r: Result<Stmt, Failure>)
    ensures
        agrees_stmt(r, parse_statement(token_views(tokens@))),
{
    match function_definition_at(tokens) {
        Ok(s) => Ok(s),
        Err(f1) => match variable_definition_at(tokens) {
            Ok(s) => Ok(s),
            Err(f2) => match to_end(tokens, 0) {
                Ok(e) => Ok(Stmt::Expr(e)),
                Err(f3) => {
                    let f12 = if f2.at >= f1.at {
                        f2
                    } else {
                        f1
                    };
                    if f3.at >= f12.at {
                        Err(f3)
                    } else {
                        Err(f12)
                    }
                },
            },
        },
    }
}

fn span_of(tokens: &Vec<(Token, Span)>, at: usize, end: usize) -> (span: Span)
    ensures
        span == span_at(token_spans(tokens@), at as int, end),
{
    if at < tokens.len() {
        tokens[at].1
    } else {
        Span { start: end, end }
    }
}

/// The failure in byte offsets.
fn locate(f: Failure, tokens: &Vec<(Token, Span)>, end: usize) -> (error: SyntaxError)
    ensures
        error@ == located(f@, token_spans(tokens@), end),
{
    let span = span_of(tokens, f.at, end);
    let mut labels: Vec<(Label, Span)> = Vec::new();
    let mut i: usize = 0;
    while i < f.context.len()
        invariant
            i <= f.context.len(),
            span == span_at(token_spans(tokens@), f.at as int, end),
            labels@.len() == i,
            forall|j: int|
                0 <= j < i ==> #[trigger] labels@[j] == located(
                    f@,
                    token_spans(tokens@),
                    end,
                ).context_labels[j],
        decreases f.context.len() - i,
    {
        let (label, start) = f.context[i];
        labels.push((label, Span { start: span_of(tokens, start, end).start, end: span.end }));
        i = i + 1;
    }
    let error = SyntaxError { span, expected: f.expected, context_labels: labels };
    proof {
        assert(error@.context_labels =~= located(f@, token_spans(tokens@), end).context_labels);
    }
    error
}

fn report(r: Result<Stmt, Failure>, tokens: &Vec<(Token, Span)>, end: usize) -> (out: Result<
    Stmt,
    Vec<SyntaxError>,
>)
    ensures
        forall|s: Result<StmtView, FailureView>|
            agrees_stmt(r, s) ==> reports(out, s, token_spans(tokens@), end),
{
    match r {
        Ok(s) => Ok(s),
        Err(f) => {
            let mut errors: Vec<SyntaxError> = Vec::new();
            errors.push(locate(f, tokens, end));
            Err(errors)
        },
    }
}

/// The tokens without the whitespace.
pub fn significant(tokens: &Vec<(Token, Span)>) -> (kept: Vec<(Token, Span)>)
    ensures
        lexeme_views(kept@) == without_spaces(lexeme_views(tokens@)),
{
    let ghost all = lexeme_views(tokens@);
    let mut kept: Vec<(Token, Span)> = Vec::new();
    let mut i: usize = 0;
    proof {
        assert(all.take(0) =~= Seq::empty());
        assert(lexeme_views(kept@) =~= Seq::empty());
    }
    while i < tokens.len()
        invariant
            i <= tokens.len(),
            all == lexeme_views(tokens@),
            lexeme_views(kept@) == without_spaces(all.take(i as int)),
        decreases tokens.len() - i,
    {
        let ghost kept_before = kept@;
        proof {
            assert(all.take(i + 1).drop_last() =~= all.take(i as int));
            assert(all.take(i + 1).last() == all[i as int]);
        }
        let space = match &tokens[i].0 {
            Token::Space => true,
            _ => false,
        };
        if !space {
            let item = (tokens[i].0.clone(), tokens[i].1);
            kept.push(item);
            proof {
                assert(lexeme_views(kept@) =~= lexeme_views(kept_before).push(all[i as int]));
            }
        }
        i = i + 1;
    }
    proof {
        assert(all.take(tokens.len() as int) =~= all);
    }
    kept
}

/// Parses the whole of `tokens` as one statement.
///
/// `tokens` are the significant tokens of a text of `end` bytes.  On failure
/// the list holds one error: that of the alternative that got furthest, and
/// of the later one among equals.
pub fn parser(tokens: &Vec<(Token, Span)>, end: usize) -> (r: Result<Stmt, Vec<SyntaxError>>)
    ensures
        reports(r, parse_statement(token_views(tokens@)), token_spans(tokens@), end),
{
    report(statement_at(tokens), tokens, end)
}

/// Parses the whole of `tokens` as a function definition.
pub fn function_definition(tokens: &Vec<(Token, Span)>, end: usize) -> (r: Result<
    Stmt,
    Vec<SyntaxError>,
>)
    ensures
        reports(r, parse_function_definition(token_views(tokens@)), token_spans(tokens@), end),
{
    report(function_definition_at(tokens), tokens, end)
}

/// Parses the whole of `tokens` as a variable definition.
pub fn variable_definition(tokens: &Vec<(Token, Span)>, end: usize) -> (r: Result<
    Stmt,
    Vec<SyntaxError>,
>)
    ensures
        reports(r, parse_variable_definition(token_views(tokens@)), token_spans(tokens@), end),
{
    report(variable_definition_at(tokens), tokens, end)
}

/// Parses the whole of `tokens` as an expression.
pub fn expression(tokens: &Vec<(Token, Span)>, end: usize) -> (r: Result<Expr, Vec<SyntaxError>>)
    ensures
        reports_expr(r, parse_to_end(token_views(tokens@), 0), token_spans(tokens@), end),
{
    match to_end(tokens, 0) {
        Ok(e) => Ok(e),
        Err(f) => {
            let mut errors: Vec<SyntaxError> = Vec::new();
            errors.push(locate(f, tokens, end));
            Err(errors)
        },
    }
}

/// The significant tokens of a text and their spans.
pub open spec fn significant_lexemes(text: Seq<u8>) -> Seq<(TokenView, Span)> {
    without_spaces(lex_spec(text))
}

/// Lexes `input`, drops the whitespace and parses the rest as one statement.
pub fn lex_and_parse(input: &str) -> (r: Result<Stmt, Vec<SyntaxError>>)
    ensures
        reports(
            r,
            parse_statement(
                significant_lexemes(input.spec_bytes()).map_values(|t: (TokenView, Span)| t.0),
            ),
            significant_lexemes(input.spec_bytes()).map_values(|t: (TokenView, Span)| t.1),
            input.spec_bytes().len() as usize,
        ),
{
    let tokens = significant(&lex(input));
    proof {
        let lexemes = significant_lexemes(input.spec_bytes());
        assert(token_views(tokens@) =~= lexemes.map_values(|t: (TokenView, Span)| t.0));
        assert(token_spans(tokens@) =~= lexemes.map_values(|t: (TokenView, Span)| t.1));
    }
    parser(&tokens, input.len())
}

} // verus!
