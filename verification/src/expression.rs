//! The expression tree that the parser builds and the evaluator walks.

use vstd::prelude::*;
use crate::operators::{InfixOp, PostfixOp, PrefixOp};
use crate::token::Decimal;

verus! {

/// An expression.  Every node owns its children.
#[allow(inconsistent_fields)]
#[derive(Debug, PartialEq)]
pub enum Expr {
    Int(i64),
    Float(Decimal),
    Variable(String),
    FnCall { name: String, args: Vec<Expr> },
    PrefixOp { op: PrefixOp, arg: Box<Expr> },
    PostfixOp { op: PostfixOp, arg: Box<Expr> },
    InfixOp { op: InfixOp, lhs: Box<Expr>, rhs: Box<Expr> },
    /// The placeholder `_` for the previous answer.
    PrevAnswer,
}

/// The mathematical content of an [`Expr`].
#[allow(inconsistent_fields)]
pub enum ExprView {
    Int(i64),
    Float(Decimal),
    Variable(Seq<char>),
    FnCall { name: Seq<char>, args: Seq<ExprView> },
    PrefixOp { op: PrefixOp, arg: Box<ExprView> },
    PostfixOp { op: PostfixOp, arg: Box<ExprView> },
    InfixOp { op: InfixOp, lhs: Box<ExprView>, rhs: Box<ExprView> },
    PrevAnswer,
}

impl Expr {
    /// The view, by recursion over the tree.
    pub open spec fn model(&self) -> ExprView
        decreases self,
    {
        match self {
            Expr::Int(n) => ExprView::Int(*n),
            Expr::Float(d) => ExprView::Float(*d),
            Expr::Variable(name) => ExprView::Variable(name@),
            Expr::FnCall { name, args } => ExprView::FnCall {
                name: name@,
                args: Seq::new(
                    args.len() as nat,
                    |i: int|
                        if 0 <= i < args.len() {
                            args[i].model()
                        } else {
                            ExprView::PrevAnswer
                        },
                ),
            },
            Expr::PrefixOp { op, arg } => ExprView::PrefixOp { op: *op, arg: Box::new(arg.model()) },
            Expr::PostfixOp { op, arg } => ExprView::PostfixOp {
                op: *op,
                arg: Box::new(arg.model()),
            },
            Expr::InfixOp { op, lhs, rhs } => ExprView::InfixOp {
                op: *op,
                lhs: Box::new(lhs.model()),
                rhs: Box::new(rhs.model()),
            },
            Expr::PrevAnswer => ExprView::PrevAnswer,
        }
    }
}

impl Expr {
    /// A copy of the whole tree.
    pub fn duplicate(&self) -> (copy: Expr)
        ensures
            copy@ == self@,
        decreases self,
    {
        match self {
            Expr::Int(n) => Expr::Int(*n),
            Expr::Float(d) => Expr::Float(*d),
            Expr::Variable(name) => Expr::Variable(name.clone()),
            Expr::FnCall { name, args } => {
                let mut copies: Vec<Expr> = Vec::new();
                let mut i: usize = 0;
                while i < args.len()
                    invariant
                        i <= args.len(),
                        self matches Expr::FnCall { args: a, .. } && a == args,
                        copies@.len() == i,
                        forall|j: int| 0 <= j < i ==> (#[trigger] copies@[j])@ == args@[j]@,
                    decreases args.len() - i,
                {
                    copies.push(args[i].duplicate());
                    i = i + 1;
                }
                let copy = Expr::FnCall { name: name.clone(), args: copies };
                proof {
                    assert(copy.model()->FnCall_args =~= self.model()->FnCall_args);
                }
                copy
            },
            Expr::PrefixOp { op, arg } => Expr::PrefixOp { op: *op, arg: Box::new(arg.duplicate()) },
            Expr::PostfixOp { op, arg } => Expr::PostfixOp {
                op: *op,
                arg: Box::new(arg.duplicate()),
            },
            Expr::InfixOp { op, lhs, rhs } => Expr::InfixOp {
                op: *op,
                lhs: Box::new(lhs.duplicate()),
                rhs: Box::new(rhs.duplicate()),
            },
            Expr::PrevAnswer => Expr::PrevAnswer,
        }
    }
}

impl Clone for Expr {
    fn clone(&self) -> (copy: Self)
        ensures
            copy@ == self@,
    {
        self.duplicate()
    }
}

impl View for Expr {
    type V = ExprView;

    open spec fn view(&self) -> ExprView {
        self.model()
    }
}

/// The views of a sequence of expressions.
pub open spec fn expr_views(exprs: Seq<Expr>) -> Seq<ExprView> {
    exprs.map_values(|e: Expr| e@)
}

/// The views of a sequence of names.
pub open spec fn name_views(names: Seq<String>) -> Seq<Seq<char>> {
    names.map_values(|n: String| n@)
}

/// The arguments of a call node are viewed one by one.
pub proof fn lemma_call_view(name: String, args: Vec<Expr>)
    ensures
        (Expr::FnCall { name, args })@ == (ExprView::FnCall {
            name: name@,
            args: expr_views(args@),
        }),
{
    let e = Expr::FnCall { name, args };
    assert(e.model()->FnCall_args =~= expr_views(args@));
}

} // verus!
