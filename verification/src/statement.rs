//! Statements: one per input line.

use vstd::prelude::*;
use crate::expression::{name_views, Expr, ExprView};

verus! {

/// A statement.
#[derive(Debug, PartialEq)]
pub enum Stmt {
    /// `let name = expr`
    DefVar { name: String, expr: Expr },
    /// `let name(arg_names...) = body`
    DefFun { name: String, arg_names: Vec<String>, body: Expr },
    /// A bare expression.
    Expr(Expr),
}

/// The mathematical content of a [`Stmt`].
pub enum StmtView {
    DefVar { name: Seq<char>, expr: ExprView },
    DefFun { name: Seq<char>, arg_names: Seq<Seq<char>>, body: ExprView },
    Expr(ExprView),
}

impl View for Stmt {
    type V = StmtView;

    open spec fn view(&self) -> StmtView {
        match self {
            Stmt::DefVar { name, expr } => StmtView::DefVar { name: name@, expr: expr@ },
            Stmt::DefFun { name, arg_names, body } => StmtView::DefFun {
                name: name@,
                arg_names: name_views(arg_names@),
                body: body@,
            },
            Stmt::Expr(expr) => StmtView::Expr(expr@),
        }
    }
}

/// A copy of a list of names.
pub fn duplicate_names(names: &Vec<String>) -> (copy: Vec<String>)
    ensures
        name_views(copy@) == name_views(names@),
{
    let mut copy: Vec<String> = Vec::new();
    let mut i: usize = 0;
    while i < names.len()
        invariant
            i <= names.len(),
            copy@.len() == i,
            forall|j: int| 0 <= j < i ==> (#[trigger] copy@[j])@ == names@[j]@,
        decreases names.len() - i,
    {
        copy.push(names[i].clone());
        i = i + 1;
    }
    proof {
        assert(name_views(copy@) =~= name_views(names@));
    }
    copy
}

impl Clone for Stmt {
    fn clone(&self) -> (copy: Self)
        ensures
            copy@ == self@,
    {
        match self {
            Stmt::DefVar { name, expr } => Stmt::DefVar { name: name.clone(), expr: expr.duplicate() },
            Stmt::DefFun { name, arg_names, body } => Stmt::DefFun {
                name: name.clone(),
                arg_names: duplicate_names(arg_names),
                body: body.duplicate(),
            },
            Stmt::Expr(expr) => Stmt::Expr(expr.duplicate()),
        }
    }
}

} // verus!
