//! The evaluator: it walks an expression and gives its value.
//!
//! Evaluation is a function of the statement, the context, the table of
//! floating-point results and the greatest depth that calls of user-defined
//! functions may reach.  It ends with a value, with an error, with the
//! floating-point operation whose result the table lacks, or because that
//! depth was reached.  Only a statement that ends with a value changes the
//! context.

use vstd::prelude::*;
use crate::builtin::{apply, apply_builtin, value_views};
use crate::context::{
    bind, can_bind, find_variable, lookup_variable, option_view, scope_views, scopes_wf, Context,
    ContextView,
};
use crate::dict::Dict;
use crate::errors::{EvalError, EvalErrorView, Halt, HaltView};
use crate::expression::{name_views, Expr, ExprView};
use crate::float::{Float, FloatOp, FloatTable};
use crate::function::{Function, FunctionView};
use crate::number::{factorial_of, Number};
use crate::statement::{Stmt, StmtView};
use crate::value::{ask, halts, infix, lift, negate, request, Value};
use crate::variable::{Variable, VariableView};

verus! {

/// The scope of a call: the first `count` parameters bound to the first
/// `count` arguments.
pub open spec fn frame_upto(names: Seq<Seq<char>>, values: Seq<Number>, count: nat) -> Map<
    Seq<char>,
    VariableView,
>
    decreases count,
{
    if count == 0 {
        Map::empty()
    } else {
        frame_upto(names, values, (count - 1) as nat).insert(
            names[count - 1],
            VariableView::Internal(values[count - 1]),
        )
    }
}

/// The scope of a call: each parameter bound to its argument.
pub open spec fn frame(names: Seq<Seq<char>>, values: Seq<Number>) -> Map<Seq<char>, VariableView> {
    frame_upto(
        names,
        values,
        if names.len() <= values.len() {
            names.len()
        } else {
            values.len()
        },
    )
}

/// The value of the expression `e`.
pub open spec fn eval_expr(
    e: ExprView,
    ctx: ContextView,
    floats: Seq<(FloatOp, Float)>,
    depth: nat,
) -> Result<Number, HaltView>
    decreases depth, 1nat, e, 0nat,
{
    match e {
        ExprView::Int(i) => Ok(Number::Integer(i as int)),
        ExprView::Float(d) => match ask(floats, FloatOp::Literal(d)) {
            Ok(f) => Ok(Number::Float(f)),
            Err(h) => Err(h),
        },
        ExprView::Variable(name) => match find_variable(ctx.scopes, name) {
            Some(v) => Ok(v.value()),
            None => Err(HaltView::Error(EvalErrorView::VariableNotFound(name))),
        },
        ExprView::PrevAnswer => match ctx.previous_answer {
            Some(v) => Ok(v),
            None => Err(HaltView::Error(EvalErrorView::NoHistory)),
        },
        ExprView::InfixOp { op, lhs, rhs } => match eval_expr(*lhs, ctx, floats, depth) {
            Err(h) => Err(h),
            Ok(a) => match eval_expr(*rhs, ctx, floats, depth) {
                Err(h) => Err(h),
                Ok(b) => infix(op, a, b, floats),
            },
        },
        ExprView::PrefixOp { op, arg } => match eval_expr(*arg, ctx, floats, depth) {
            Err(h) => Err(h),
            Ok(a) => lift(negate(a)),
        },
        ExprView::PostfixOp { op, arg } => match eval_expr(*arg, ctx, floats, depth) {
            Err(h) => Err(h),
            Ok(a) => lift(factorial_of(a)),
        },
        ExprView::FnCall { name, args } => match eval_args(args, args.len(), ctx, floats, depth) {
            Err(h) => Err(h),
            Ok(values) => {
                if ctx.functions.contains_key(name) {
                    call_function(ctx.functions[name], values, ctx, floats, depth)
                } else {
                    Err(HaltView::Error(EvalErrorView::FunctionNotFound(name)))
                }
            },
        },
    }
}

/// The values of the first `count` of the arguments `args`, from left to
/// right; the first halt among them where there is one.
pub open spec fn eval_args(
    args: Seq<ExprView>,
    count: nat,
    ctx: ContextView,
    floats: Seq<(FloatOp, Float)>,
    depth: nat,
) -> Result<Seq<Number>, HaltView>
    decreases depth, 1nat, args, count,
{
    if count == 0 || count > args.len() {
        Ok(Seq::empty())
    } else {
        match eval_args(args, (count - 1) as nat, ctx, floats, depth) {
            Err(h) => Err(h),
            Ok(values) => match eval_expr(args[count - 1], ctx, floats, depth) {
                Err(h) => Err(h),
                Ok(v) => Ok(values.push(v)),
            },
        }
    }
}

/// The function `f` of the arguments `values`.
///
/// A function of the user is evaluated in a new innermost scope, in which
/// its parameters are bound to the arguments, and with one level of depth
/// less.
pub open spec fn call_function(
    f: FunctionView,
    values: Seq<Number>,
    ctx: ContextView,
    floats: Seq<(FloatOp, Float)>,
    depth: nat,
) -> Result<Number, HaltView>
    decreases depth, 0nat,
{
    match f {
        FunctionView::External { arity, body } => {
            if values.len() != arity {
                Err(
                    HaltView::Error(
                        EvalErrorView::InvalidNumberOfArguments(arity, values.len() as usize),
                    ),
                )
            } else {
                apply_builtin(body, values, floats)
            }
        },
        FunctionView::Internal { arity, arg_names, body } => {
            if values.len() != arity {
                Err(
                    HaltView::Error(
                        EvalErrorView::InvalidNumberOfArguments(arity, values.len() as usize),
                    ),
                )
            } else if depth == 0 {
                Err(HaltView::DepthExceeded)
            } else {
                eval_expr(
                    body,
                    ContextView { scopes: ctx.scopes.push(frame(arg_names, values)), ..ctx },
                    floats,
                    (depth - 1) as nat,
                )
            }
        },
    }
}

/// The result of the statement `s` and the context after it.
pub open spec fn exec_stmt(
    s: StmtView,
    ctx: ContextView,
    floats: Seq<(FloatOp, Float)>,
    depth: nat,
) -> (Result<Number, HaltView>, ContextView) {
    match s {
        StmtView::DefVar { name, expr } => match eval_expr(expr, ctx, floats, depth) {
            Err(h) => (Err(h), ctx),
            Ok(v) => {
                if can_bind(ctx.scopes, name) {
                    (Ok(v), ContextView { scopes: bind(ctx.scopes, name, v), ..ctx })
                } else {
                    (Err(HaltView::Error(EvalErrorView::InvalidVariableDefinition(name))), ctx)
                }
            },
        },
        StmtView::DefFun { name, arg_names, body } => (
            Ok(Number::Null),
            ContextView {
                functions: ctx.functions.insert(
                    name,
                    FunctionView::Internal { arity: arg_names.len() as usize, arg_names, body },
                ),
                ..ctx
            },
        ),
        StmtView::Expr(e) => match eval_expr(e, ctx, floats, depth) {
            Err(h) => (Err(h), ctx),
            Ok(v) => (Ok(v), ContextView { previous_answer: Some(v), ..ctx }),
        },
    }
}

/// The context that the parts of a context stand for.
pub open spec fn context_of(
    functions: Dict<Function>,
    scopes: Seq<Dict<Variable>>,
    previous: Option<Value>,
) -> ContextView {
    ContextView {
        previous_answer: option_view(previous),
        functions: functions@,
        scopes: scope_views(scopes),
    }
}

/// The scope of a call.
fn make_frame(names: &Vec<String>, values: &Vec<Value>) -> (scope: Dict<Variable>)
    ensures
        scope.wf(),
        scope@ == frame(name_views(names@), value_views(values@)),
{
    let count: usize = if names.len() <= values.len() {
        names.len()
    } else {
        values.len()
    };
    let mut scope: Dict<Variable> = Dict::new();
    let mut i: usize = 0;
    while i < count
        invariant
            i <= count,
            count <= names@.len(),
            count <= values@.len(),
            scope.wf(),
            scope@ == frame_upto(name_views(names@), value_views(values@), i as nat),
        decreases count - i,
    {
        scope.insert(names[i].clone(), Variable::Internal(values[i]));
        i = i + 1;
    }
    scope
}

fn eval_core(
    expr: &Expr,
    functions: &Dict<Function>,
    scopes: &mut Vec<Dict<Variable>>,
    previous: Option<Value>,
    floats: &FloatTable,
    depth: usize,
) -> (r: Result<Value, Halt>)
    requires
        functions.wf(),
        scopes_wf(old(scopes)@),
    ensures
        final(scopes)@ == old(scopes)@,
        halts(
            r,
            eval_expr(expr@, context_of(*functions, old(scopes)@, previous), floats@, depth as nat),
        ),
    decreases depth, 1nat, expr, 0nat,
{
    let ghost ctx = context_of(*functions, scopes@, previous);
    match expr {
        Expr::Int(i) => Ok(Value::Integer(*i)),
        Expr::Float(d) => match request(floats, FloatOp::Literal(*d)) {
            Ok(f) => Ok(Value::Float(f)),
            Err(h) => Err(h),
        },
        Expr::Variable(name) => match lookup_variable(scopes, name) {
            Some(v) => Ok(v.get()),
            None => Err(Halt::Error(EvalError::VariableNotFound(name.clone()))),
        },
        Expr::PrevAnswer => match previous {
            Some(v) => Ok(v),
            None => Err(Halt::Error(EvalError::NoHistory)),
        },
        Expr::InfixOp { op, lhs, rhs } => {
            let a = match eval_core(lhs, functions, scopes, previous, floats, depth) {
                Ok(a) => a,
                Err(h) => {
                    return Err(h);
                },
            };
            let b = match eval_core(rhs, functions, scopes, previous, floats, depth) {
                Ok(b) => b,
                Err(h) => {
                    return Err(h);
                },
            };
            Value::infix(*op, a, b, floats)
        },
        Expr::PrefixOp { op, arg } => {
            match eval_core(arg, functions, scopes, previous, floats, depth) {
                Err(h) => Err(h),
                Ok(a) => match a.neg() {
                    Ok(v) => Ok(v),
                    Err(e) => Err(Halt::Error(e)),
                },
            }
        },
        Expr::PostfixOp { op, arg } => {
            match eval_core(arg, functions, scopes, previous, floats, depth) {
                Err(h) => Err(h),
                Ok(a) => match a.factorial() {
                    Ok(v) => Ok(v),
                    Err(e) => Err(Halt::Error(e)),
                },
            }
        },
        Expr::FnCall { name, args } => {
            let mut values: Vec<Value> = Vec::new();
            let mut i: usize = 0;
            proof {
                assert(value_views(values@) =~= Seq::empty());
            }
            while i < args.len()
                invariant
                    i <= args.len(),
                    expr matches Expr::FnCall { args: a, .. } && a == args,
                    functions.wf(),
                    scopes_wf(scopes@),
                    scopes@ == old(scopes)@,
                    ctx == context_of(*functions, scopes@, previous),
                    eval_args(expr@->FnCall_args, i as nat, ctx, floats@, depth as nat) == Ok::<
                        Seq<Number>,
                        HaltView,
                    >(value_views(values@)),
                decreases args.len() - i,
            {
                let ghost before = values@;
                match eval_core(&args[i], functions, scopes, previous, floats, depth) {
                    Ok(v) => {
                        values.push(v);
                        proof {
                            assert(value_views(values@) =~= value_views(before).push(v@));
                            assert(expr@->FnCall_args[i as int] == args[i as int]@);
                        }
                    },
                    Err(h) => {
                        proof {
                            assert(expr@->FnCall_args[i as int] == args[i as int]@);
                            lemma_eval_args_halt(
                                expr@->FnCall_args,
                                (i + 1) as nat,
                                args.len() as nat,
                                ctx,
                                floats@,
                                depth as nat,
                            );
                        }
                        return Err(h);
                    },
                }
                i = i + 1;
            }
            match functions.get(name) {
                None => Err(Halt::Error(EvalError::FunctionNotFound(name.clone()))),
                Some(f) => call_core(f, values, functions, scopes, previous, floats, depth),
            }
        },
    }
}

/// A halt among the first arguments is the halt of all of them.
pub proof fn lemma_eval_args_halt(
    args: Seq<ExprView>,
    count: nat,
    all: nat,
    ctx: ContextView,
    floats: Seq<(FloatOp, Float)>,
    depth: nat,
)
    requires
        count <= all <= args.len(),
        eval_args(args, count, ctx, floats, depth) is Err,
    ensures
        eval_args(args, all, ctx, floats, depth) == eval_args(args, count, ctx, floats, depth),
    decreases all,
{
    if count < all {
        lemma_eval_args_halt(args, count, (all - 1) as nat, ctx, floats, depth);
    }
}

fn call_core(
    f: &Function,
    values: Vec<Value>,
    functions: &Dict<Function>,
    scopes: &mut Vec<Dict<Variable>>,
    previous: Option<Value>,
    floats: &FloatTable,
    depth: usize,
) -> (r: Result<Value, Halt>)
    requires
        functions.wf(),
        scopes_wf(old(scopes)@),
    ensures
        final(scopes)@ == old(scopes)@,
        halts(
            r,
            call_function(
                f@,
                value_views(values@),
                context_of(*functions, old(scopes)@, previous),
                floats@,
                depth as nat,
            ),
        ),
    decreases depth, 0nat,
{
    match f {
        Function::External { arity, body } => {
            if values.len() != *arity {
                Err(Halt::Error(EvalError::InvalidNumberOfArguments(*arity, values.len())))
            } else {
                apply(*body, &values, floats)
            }
        },
        Function::Internal { arity, arg_names, body } => {
            if values.len() != *arity {
                Err(Halt::Error(EvalError::InvalidNumberOfArguments(*arity, values.len())))
            } else if depth == 0 {
                Err(Halt::DepthExceeded)
            } else {
                let ghost before = scopes@;
                let scope = make_frame(arg_names, &values);
                scopes.push(scope);
                proof {
                    assert(scope_views(scopes@) =~= scope_views(before).push(scope@));
                }
                let r = eval_core(body, functions, scopes, previous, floats, depth - 1);
                scopes.pop();
                proof {
                    assert(scopes@ =~= before);
                }
                r
            }
        },
    }
}

impl Expr {
    /// Evaluates the expression in `context`.
    ///
    /// The context is the same afterwards, whatever the outcome.
    pub fn eval(&self, context: &mut Context, floats: &FloatTable, depth: usize) -> (r: Result<
        Value,
        Halt,
    >)
        requires
            old(context).wf(),
        ensures
            final(context).wf(),
            final(context)@ == old(context)@,
            halts(r, eval_expr(self@, old(context)@, floats@, depth as nat)),
    {
        proof {
            context.lemma_parts();
        }
        let previous = context.previous_answer;
        let r = eval_core(
            self,
            &context.functions,
            &mut context.variables,
            previous,
            floats,
            depth,
        );
        proof {
            context.lemma_parts();
        }
        r
    }
}

impl Function {
    /// Calls the function with the arguments `args`.
    ///
    /// The context is the same afterwards, whatever the outcome.
    pub fn call(&self, args: Vec<Value>, context: &mut Context, floats: &FloatTable, depth: usize) -> (r:
        Result<Value, Halt>)
        requires
            old(context).wf(),
        ensures
            final(context).wf(),
            final(context)@ == old(context)@,
            halts(
                r,
                call_function(self@, value_views(args@), old(context)@, floats@, depth as nat),
            ),
    {
        proof {
            context.lemma_parts();
        }
        let previous = context.previous_answer;
        let r = call_core(
            self,
            args,
            &context.functions,
            &mut context.variables,
            previous,
            floats,
            depth,
        );
        proof {
            context.lemma_parts();
        }
        r
    }
}

impl Stmt {
    /// Evaluates the statement in `context`.
    ///
    /// A variable definition binds the value of its expression in the
    /// innermost scope and gives that value; it fails where the name is a
    /// builtin constant.  A function definition defines the function and
    /// gives no value.  An expression gives its value, which becomes the
    /// previous answer.  A statement that halts leaves the context as it was.
    pub fn eval(self, context: &mut Context, floats: &FloatTable, depth: usize) -> (r: Result<
        Value,
        Halt,
    >)
        requires
            old(context).wf(),
        ensures
            final(context).wf(),
            halts(r, exec_stmt(self@, old(context)@, floats@, depth as nat).0),
            final(context)@ == exec_stmt(self@, old(context)@, floats@, depth as nat).1,
    {
        match self {
            Stmt::DefVar { name, expr } => {
                match expr.eval(context, floats, depth) {
                    Err(h) => Err(h),
                    Ok(v) => match context.set_variable(name.as_str(), v) {
                        Some(v) => Ok(v),
                        None => Err(Halt::Error(EvalError::InvalidVariableDefinition(name))),
                    },
                }
            },
            Stmt::DefFun { name, arg_names, body } => {
                context.set_function(name.as_str(), arg_names, body);
                Ok(Value::null())
            },
            Stmt::Expr(expr) => {
                match expr.eval(context, floats, depth) {
                    Err(h) => Err(h),
                    Ok(v) => {
                        context.set_prev_answer(&v);
                        Ok(v)
                    },
                }
            },
        }
    }
}

} // verus!
