//! An interactive calculator language: a lexer, a parser, and a tree-walking
//! evaluator over a scoped context and a tower of exact and inexact numbers.
//!
//! A line of input becomes tokens ([`token::lex`]), the tokens become one
//! statement ([`parser::parser`], or both steps at once with
//! [`parser::lex_and_parse`]), and the statement is evaluated in a context
//! ([`statement::Stmt::eval`]), which gives a value or an error and may
//! define a variable or a function or set the previous answer.
//!
//! Exact numbers are 64-bit integers and fractions of them in lowest terms;
//! an exact operation whose result leaves that range fails with `Overflow`
//! and never rounds.  Inexact numbers are IEEE-754 doubles, carried as their
//! bit patterns.  This crate computes nothing in floating point: each
//! floating-point operation that a statement needs is looked up in a
//! [`float::FloatTable`] given by the caller, and where the table lacks one,
//! evaluation halts and names it.  The caller computes it, records it and
//! evaluates the statement again.  User-defined functions may call each other
//! up to a depth that the caller sets.  So evaluation is a terminating
//! function of its arguments, which [`eval::exec_stmt`] defines.
//!
//! The module [`laws`] states what holds of the language as a whole.

pub mod args;
pub mod builtin;
pub mod context;
pub mod default_context;
pub mod dict;
pub mod display;
pub mod equality;
pub mod errors;
pub mod eval;
pub mod expression;
pub mod float;
pub mod function;
pub mod laws;
pub mod number;
pub mod operators;
pub mod order;
pub mod parser;
pub mod statement;
pub mod text;
pub mod token;
pub mod value;
pub mod variable;

pub use default_context::create_context;
pub use parser::lex_and_parse;
