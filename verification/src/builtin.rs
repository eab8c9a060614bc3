//! What the builtin functions compute.
//!
//! A builtin decides here whether its arguments lie in its domain and which
//! floating-point operations make up its result; the results of those
//! operations come from the table.

use vstd::prelude::*;
use crate::args::AngleUnit;
use crate::errors::{Domain, EvalError, EvalErrorView, Halt, HaltView, ValueKind};
use crate::float::{BinaryFn, Float, FloatOp, FloatTable, UnaryFn};
use crate::function::{Builtin, Native};
use crate::number::{integer, Number};
use crate::value::{
    absolute, as_float, ask, floor_div, halts, lift, make_integer, request, Value,
};

verus! {

/// The views of a sequence of values.
pub open spec fn value_views(values: Seq<Value>) -> Seq<Number> {
    values.map_values(|v: Value| v@)
}

/// The function `f` of the result `x`, where there is one.
pub open spec fn chain(x: Result<Float, HaltView>, f: UnaryFn, floats: Seq<(FloatOp, Float)>) -> Result<
    Float,
    HaltView,
> {
    match x {
        Ok(v) => ask(floats, FloatOp::Unary(f, v)),
        Err(h) => Err(h),
    }
}

/// The angle `x`, given in `unit`, in radians.
pub open spec fn angle_in(unit: AngleUnit, x: Float, floats: Seq<(FloatOp, Float)>) -> Result<
    Float,
    HaltView,
> {
    match unit {
        AngleUnit::Radian => Ok(x),
        AngleUnit::Degrees => ask(floats, FloatOp::Unary(UnaryFn::ToRadians, x)),
    }
}

/// The angle `x`, given in radians, in `unit`.
pub open spec fn angle_out(unit: AngleUnit, x: Result<Float, HaltView>, floats: Seq<(FloatOp, Float)>) -> Result<
    Float,
    HaltView,
> {
    match unit {
        AngleUnit::Radian => x,
        AngleUnit::Degrees => chain(x, UnaryFn::ToDegrees, floats),
    }
}

/// The error of an argument outside `domain`.
pub open spec fn outside(domain: Domain) -> HaltView {
    HaltView::Error(EvalErrorView::MathDomain(domain))
}

/// A builtin of one argument, other than `abs` and the roundings, of the
/// double `x`.
pub open spec fn apply_unary(native: Native, x: Float, floats: Seq<(FloatOp, Float)>) -> Result<
    Float,
    HaltView,
> {
    let unit = native.unit;
    match native.builtin {
        Builtin::Sin => chain(angle_in(unit, x, floats), UnaryFn::Sin, floats),
        Builtin::Cos => chain(angle_in(unit, x, floats), UnaryFn::Cos, floats),
        Builtin::Tan => chain(angle_in(unit, x, floats), UnaryFn::Tan, floats),
        Builtin::Sec => chain(
            chain(angle_in(unit, x, floats), UnaryFn::Cos, floats),
            UnaryFn::Recip,
            floats,
        ),
        Builtin::Csc => chain(
            chain(angle_in(unit, x, floats), UnaryFn::Sin, floats),
            UnaryFn::Recip,
            floats,
        ),
        Builtin::Cot => chain(
            chain(angle_in(unit, x, floats), UnaryFn::Tan, floats),
            UnaryFn::Recip,
            floats,
        ),
        Builtin::Asin => if x.in_unit_interval() {
            angle_out(unit, ask(floats, FloatOp::Unary(UnaryFn::Asin, x)), floats)
        } else {
            Err(outside(Domain::UnitInterval))
        },
        Builtin::Acos => if x.in_unit_interval() {
            angle_out(unit, ask(floats, FloatOp::Unary(UnaryFn::Acos, x)), floats)
        } else {
            Err(outside(Domain::UnitInterval))
        },
        Builtin::Atan => angle_out(unit, ask(floats, FloatOp::Unary(UnaryFn::Atan, x)), floats),
        Builtin::Sinh => ask(floats, FloatOp::Unary(UnaryFn::Sinh, x)),
        Builtin::Cosh => ask(floats, FloatOp::Unary(UnaryFn::Cosh, x)),
        Builtin::Tanh => ask(floats, FloatOp::Unary(UnaryFn::Tanh, x)),
        Builtin::Sqrt => if x.is_nonnegative() {
            ask(floats, FloatOp::Unary(UnaryFn::Sqrt, x))
        } else {
            Err(outside(Domain::NonNegative))
        },
        Builtin::Exp => ask(floats, FloatOp::Unary(UnaryFn::Exp, x)),
        Builtin::Exp2 => ask(floats, FloatOp::Unary(UnaryFn::Exp2, x)),
        Builtin::Ln => if x.is_positive() {
            ask(floats, FloatOp::Unary(UnaryFn::Ln, x))
        } else {
            Err(outside(Domain::Positive))
        },
        Builtin::Log2 => if x.is_positive() {
            ask(floats, FloatOp::Unary(UnaryFn::Log2, x))
        } else {
            Err(outside(Domain::Positive))
        },
        Builtin::Log10 => if x.is_positive() {
            ask(floats, FloatOp::Unary(UnaryFn::Log10, x))
        } else {
            Err(outside(Domain::Positive))
        },
        Builtin::Rad => ask(floats, FloatOp::Unary(UnaryFn::ToRadians, x)),
        Builtin::Deg => ask(floats, FloatOp::Unary(UnaryFn::ToDegrees, x)),
        // the others are not computed from one double
        _ => Ok(x),
    }
}

/// The fraction `n / d`, `d > 0`, rounded to an integer: down, up, or to
/// the nearest, halves away from zero.
pub open spec fn round_exact(f: Builtin, n: int, d: int) -> int {
    match f {
        Builtin::Floor => n / d,
        Builtin::Ceil => -((-n) / d),
        _ => if n >= 0 {
            (2 * n + d) / (2 * d)
        } else {
            -((2 * (-n) + d) / (2 * d))
        },
    }
}

/// The floating-point function of a rounding.
pub open spec fn rounding_fn(f: Builtin) -> UnaryFn {
    match f {
        Builtin::Floor => UnaryFn::Floor,
        Builtin::Ceil => UnaryFn::Ceil,
        _ => UnaryFn::Round,
    }
}

/// `floor`, `ceil` or `round` of a number: an integer, or `Overflow` where
/// the integer does not fit.
pub open spec fn rounding(f: Builtin, a: Number, floats: Seq<(FloatOp, Float)>) -> Result<
    Number,
    HaltView,
> {
    match a {
        Number::Null => Err(
            HaltView::Error(EvalErrorView::InvalidConversion(ValueKind::Null, ValueKind::Float)),
        ),
        Number::Integer(i) => Ok(a),
        Number::Rational(n, d) => lift(integer(round_exact(f, n, d))),
        Number::Float(x) => match ask(floats, FloatOp::Unary(rounding_fn(f), x)) {
            Err(h) => Err(h),
            Ok(y) => match y.integer() {
                Some(i) => Ok(Number::Integer(i)),
                None => Err(HaltView::Error(EvalErrorView::Overflow)),
            },
        },
    }
}

/// A double as a value.
pub open spec fn float_result(r: Result<Float, HaltView>) -> Result<Number, HaltView> {
    match r {
        Ok(f) => Ok(Number::Float(f)),
        Err(h) => Err(h),
    }
}

/// The builtin `native` of the arguments `args`.
pub open spec fn apply_builtin(native: Native, args: Seq<Number>, floats: Seq<(FloatOp, Float)>) -> Result<
    Number,
    HaltView,
> {
    if args.len() != native.builtin.spec_arity() {
        Err(
            HaltView::Error(
                EvalErrorView::InvalidNumberOfArguments(
                    native.builtin.spec_arity(),
                    args.len() as usize,
                ),
            ),
        )
    } else {
        match native.builtin {
            Builtin::Abs => lift(absolute(args[0])),
            Builtin::Floor | Builtin::Ceil | Builtin::Round => rounding(
                native.builtin,
                args[0],
                floats,
            ),
            Builtin::Log => match as_float(args[0], floats) {
                Err(h) => Err(h),
                Ok(x) => if !x.is_positive() {
                    Err(outside(Domain::Positive))
                } else {
                    match as_float(args[1], floats) {
                        Err(h) => Err(h),
                        Ok(base) => float_result(
                            ask(floats, FloatOp::Binary(BinaryFn::Log, x, base)),
                        ),
                    }
                },
            },
            Builtin::Nroot => match as_float(args[0], floats) {
                Err(h) => Err(h),
                Ok(x) => match as_float(args[1], floats) {
                    Err(h) => Err(h),
                    Ok(n) => if !x.is_nonnegative() || n.is_zero() {
                        Err(outside(Domain::Root))
                    } else {
                        match ask(floats, FloatOp::Unary(UnaryFn::Recip, n)) {
                            Err(h) => Err(h),
                            Ok(r) => float_result(
                                ask(floats, FloatOp::Binary(BinaryFn::Pow, x, r)),
                            ),
                        }
                    },
                },
            },
            _ => match as_float(args[0], floats) {
                Err(h) => Err(h),
                Ok(x) => float_result(apply_unary(native, x, floats)),
            },
        }
    }
}

/// Whether `r` is the double or the halt that `s` stands for.
pub open spec fn float_agrees(r: Result<Float, Halt>, s: Result<Float, HaltView>) -> bool {
    match (r, s) {
        (Ok(f), Ok(g)) => f == g,
        (Err(e), Err(h)) => e@ == h,
        _ => false,
    }
}

fn then(x: Result<Float, Halt>, f: UnaryFn, floats: &FloatTable) -> (r: Result<Float, Halt>)
    ensures
        forall|s: Result<Float, HaltView>|
            float_agrees(x, s) ==> float_agrees(r, #[trigger] chain(s, f, floats@)),
{
    match x {
        Ok(v) => request(floats, FloatOp::Unary(f, v)),
        Err(h) => Err(h),
    }
}

fn radians(unit: AngleUnit, x: Float, floats: &FloatTable) -> (r: Result<Float, Halt>)
    ensures
        float_agrees(r, angle_in(unit, x, floats@)),
{
    match unit {
        AngleUnit::Radian => Ok(x),
        AngleUnit::Degrees => request(floats, FloatOp::Unary(UnaryFn::ToRadians, x)),
    }
}

fn in_unit(unit: AngleUnit, x: Result<Float, Halt>, floats: &FloatTable) -> (r: Result<Float, Halt>)
    ensures
        forall|s: Result<Float, HaltView>|
            float_agrees(x, s) ==> float_agrees(r, #[trigger] angle_out(unit, s, floats@)),
{
    match unit {
        AngleUnit::Radian => x,
        AngleUnit::Degrees => then(x, UnaryFn::ToDegrees, floats),
    }
}

fn unary(native: Native, x: Float, floats: &FloatTable) -> (r: Result<Float, Halt>)
    ensures
        float_agrees(r, apply_unary(native, x, floats@)),
{
    let unit = native.unit;
    match native.builtin {
        Builtin::Sin => then(radians(unit, x, floats), UnaryFn::Sin, floats),
        Builtin::Cos => then(radians(unit, x, floats), UnaryFn::Cos, floats),
        Builtin::Tan => then(radians(unit, x, floats), UnaryFn::Tan, floats),
        Builtin::Sec => {
            let c = then(radians(unit, x, floats), UnaryFn::Cos, floats);
            assert(float_agrees(c, chain(angle_in(unit, x, floats@), UnaryFn::Cos, floats@)));
            then(c, UnaryFn::Recip, floats)
        },
        Builtin::Csc => {
            let c = then(radians(unit, x, floats), UnaryFn::Sin, floats);
            assert(float_agrees(c, chain(angle_in(unit, x, floats@), UnaryFn::Sin, floats@)));
            then(c, UnaryFn::Recip, floats)
        },
        Builtin::Cot => {
            let c = then(radians(unit, x, floats), UnaryFn::Tan, floats);
            assert(float_agrees(c, chain(angle_in(unit, x, floats@), UnaryFn::Tan, floats@)));
            then(c, UnaryFn::Recip, floats)
        },
        Builtin::Asin => if x.within_unit_interval() {
            in_unit(unit, request(floats, FloatOp::Unary(UnaryFn::Asin, x)), floats)
        } else {
            Err(Halt::Error(EvalError::MathDomain(Domain::UnitInterval)))
        },
        Builtin::Acos => if x.within_unit_interval() {
            in_unit(unit, request(floats, FloatOp::Unary(UnaryFn::Acos, x)), floats)
        } else {
            Err(Halt::Error(EvalError::MathDomain(Domain::UnitInterval)))
        },
        Builtin::Atan => in_unit(unit, request(floats, FloatOp::Unary(UnaryFn::Atan, x)), floats),
        Builtin::Sinh => request(floats, FloatOp::Unary(UnaryFn::Sinh, x)),
        Builtin::Cosh => request(floats, FloatOp::Unary(UnaryFn::Cosh, x)),
        Builtin::Tanh => request(floats, FloatOp::Unary(UnaryFn::Tanh, x)),
        Builtin::Sqrt => if x.nonnegative() {
            request(floats, FloatOp::Unary(UnaryFn::Sqrt, x))
        } else {
            Err(Halt::Error(EvalError::MathDomain(Domain::NonNegative)))
        },
        Builtin::Exp => request(floats, FloatOp::Unary(UnaryFn::Exp, x)),
        Builtin::Exp2 => request(floats, FloatOp::Unary(UnaryFn::Exp2, x)),
        Builtin::Ln => if x.positive() {
            request(floats, FloatOp::Unary(UnaryFn::Ln, x))
        } else {
            Err(Halt::Error(EvalError::MathDomain(Domain::Positive)))
        },
        Builtin::Log2 => if x.positive() {
            request(floats, FloatOp::Unary(UnaryFn::Log2, x))
        } else {
            Err(Halt::Error(EvalError::MathDomain(Domain::Positive)))
        },
        Builtin::Log10 => if x.positive() {
            request(floats, FloatOp::Unary(UnaryFn::Log10, x))
        } else {
            Err(Halt::Error(EvalError::MathDomain(Domain::Positive)))
        },
        Builtin::Rad => request(floats, FloatOp::Unary(UnaryFn::ToRadians, x)),
        Builtin::Deg => request(floats, FloatOp::Unary(UnaryFn::ToDegrees, x)),
        _ => Ok(x),
    }
}

fn round(f: Builtin, a: Value, floats: &FloatTable) -> (r: Result<Value, Halt>)
    ensures
        halts(r, rounding(f, a@, floats@)),
{
    match a {
        Value::Null => Err(
            Halt::Error(EvalError::InvalidConversion(ValueKind::Null, ValueKind::Float)),
        ),
        Value::Integer(_) => Ok(a),
        Value::Rational(q) => {
            let n: i128 = q.numer() as i128;
            let d: i128 = q.denom() as i128;
            let rounded: i128 = match f {
                Builtin::Floor => floor_div(n, d),
                Builtin::Ceil => -floor_div(-n, d),
                _ => if n >= 0 {
                    floor_div(2 * n + d, 2 * d)
                } else {
                    -floor_div(2 * (-n) + d, 2 * d)
                },
            };
            match make_integer(rounded) {
                Ok(v) => Ok(v),
                Err(e) => Err(Halt::Error(e)),
            }
        },
        Value::Float(x) => {
            let op = match f {
                Builtin::Floor => UnaryFn::Floor,
                Builtin::Ceil => UnaryFn::Ceil,
                _ => UnaryFn::Round,
            };
            match request(floats, FloatOp::Unary(op, x)) {
                Err(h) => Err(h),
                Ok(y) => match y.to_integer() {
                    Some(i) => Ok(Value::Integer(i)),
                    None => Err(Halt::Error(EvalError::Overflow)),
                },
            }
        },
    }
}

/// Applies the builtin `native` to `args`.
pub fn apply(native: Native, args: &Vec<Value>, floats: &FloatTable) -> (r: Result<Value, Halt>)
    ensures
        halts(r, apply_builtin(native, value_views(args@), floats@)),
{
    let arity = native.builtin.arity();
    if args.len() != arity {
        return Err(Halt::Error(EvalError::InvalidNumberOfArguments(arity, args.len())));
    }
    match native.builtin {
        Builtin::Abs => match args[0].abs() {
            Ok(v) => Ok(v),
            Err(e) => Err(Halt::Error(e)),
        },
        Builtin::Floor | Builtin::Ceil | Builtin::Round => round(native.builtin, args[0], floats),
        Builtin::Log => {
            let x = match args[0].to_float(floats) {
                Ok(x) => x,
                Err(h) => {
                    return Err(h);
                },
            };
            if !x.positive() {
                return Err(Halt::Error(EvalError::MathDomain(Domain::Positive)));
            }
            let base = match args[1].to_float(floats) {
                Ok(b) => b,
                Err(h) => {
                    return Err(h);
                },
            };
            match request(floats, FloatOp::Binary(BinaryFn::Log, x, base)) {
                Ok(f) => Ok(Value::Float(f)),
                Err(h) => Err(h),
            }
        },
        Builtin::Nroot => {
            let x = match args[0].to_float(floats) {
                Ok(x) => x,
                Err(h) => {
                    return Err(h);
                },
            };
            let n = match args[1].to_float(floats) {
                Ok(n) => n,
                Err(h) => {
                    return Err(h);
                },
            };
            if !x.nonnegative() || n.zero() {
                return Err(Halt::Error(EvalError::MathDomain(Domain::Root)));
            }
            let r = match request(floats, FloatOp::Unary(UnaryFn::Recip, n)) {
                Ok(r) => r,
                Err(h) => {
                    return Err(h);
                },
            };
            match request(floats, FloatOp::Binary(BinaryFn::Pow, x, r)) {
                Ok(f) => Ok(Value::Float(f)),
                Err(h) => Err(h),
            }
        },
        _ => {
            let x = match args[0].to_float(floats) {
                Ok(x) => x,
                Err(h) => {
                    return Err(h);
                },
            };
            match unary(native, x, floats) {
                Ok(f) => Ok(Value::Float(f)),
                Err(h) => Err(h),
            }
        },
    }
}

} // verus!
