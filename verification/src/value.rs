//! Values: what expressions evaluate to.

use vstd::prelude::*;
use vstd::arithmetic::div_mod::{lemma_fundamental_div_mod, lemma_fundamental_div_mod_converse};
use crate::errors::{Domain, EvalError, EvalErrorView, Halt, HaltView, ValueKind};
use crate::float::{lookup, BinaryFn, Float, FloatOp, FloatTable};
use crate::number::{
    abs, exact_abs, exact_infix, exact_neg, exact_pow, factorial, factorial_of, gcd, integer,
    lemma_factorial_grows, lemma_gcd_lowest_terms, lemma_power_grows, lemma_power_sign, power,
    rational, same_number, Number,
};
use crate::operators::InfixOp;

verus! {

/// A fraction in lowest terms over a positive denominator.
#[derive(Clone, Copy, Debug)]
pub struct Ratio {
    num: i64,
    den: i64,
}

impl Ratio {
    #[verifier::type_invariant]
    spec fn in_lowest_terms(self) -> bool {
        0 < self.den && gcd(abs(self.num as int), self.den as nat) == 1
    }

    /// The numerator.
    pub closed spec fn numerator(self) -> int {
        self.num as int
    }

    /// The denominator.
    pub closed spec fn denominator(self) -> int {
        self.den as int
    }

    /// The numerator.
    pub fn numer(&self) -> (n: i64)
        ensures
            n == self.numerator(),
    {
        self.num
    }

    /// The denominator, which is positive.
    pub fn denom(&self) -> (d: i64)
        ensures
            d == self.denominator(),
            d > 0,
    {
        proof {
            use_type_invariant(self);
        }
        self.den
    }
}

/// A value: nothing, an exact number, or a double.
#[derive(Clone, Copy, Debug)]
pub enum Value {
    /// What a function definition evaluates to.
    Null,
    Integer(i64),
    Rational(Ratio),
    Float(Float),
}

impl View for Value {
    type V = Number;

    open spec fn view(&self) -> Number {
        match self {
            Value::Null => Number::Null,
            Value::Integer(i) => Number::Integer(*i as int),
            Value::Rational(r) => Number::Rational(r.numerator(), r.denominator()),
            Value::Float(f) => Number::Float(*f),
        }
    }
}

/// Whether `r` is the value or the error that `s` stands for.
pub open spec fn yields(r: Result<Value, EvalError>, s: Result<Number, EvalErrorView>) -> bool {
    match (r, s) {
        (Ok(v), Ok(n)) => v@ == n,
        (Err(e), Err(f)) => e@ == f,
        _ => false,
    }
}

/// Whether `r` is the value or the halt that `s` stands for.
pub open spec fn halts(r: Result<Value, Halt>, s: Result<Number, HaltView>) -> bool {
    match (r, s) {
        (Ok(v), Ok(n)) => v@ == n,
        (Err(e), Err(f)) => e@ == f,
        _ => false,
    }
}

/// An exact result as the result of an evaluation step.
pub open spec fn lift(r: Result<Number, EvalErrorView>) -> Result<Number, HaltView> {
    match r {
        Ok(n) => Ok(n),
        Err(e) => Err(HaltView::Error(e)),
    }
}

/// The recorded result of `op`; where there is none, the halt that asks
/// for it.
pub open spec fn ask(floats: Seq<(FloatOp, Float)>, op: FloatOp) -> Result<Float, HaltView> {
    match lookup(floats, op) {
        Some(f) => Ok(f),
        None => Err(HaltView::Pending(op)),
    }
}

/// The double that a number is or is nearest to.
pub open spec fn as_float(a: Number, floats: Seq<(FloatOp, Float)>) -> Result<Float, HaltView> {
    match a {
        Number::Null => Err(
            HaltView::Error(EvalErrorView::InvalidConversion(ValueKind::Null, ValueKind::Float)),
        ),
        Number::Integer(i) => ask(floats, FloatOp::FromInteger(i as i64)),
        Number::Rational(n, d) => ask(floats, FloatOp::FromRatio(n as i64, d as i64)),
        Number::Float(f) => Ok(f),
    }
}

/// The floating-point function of an infix operator.
pub open spec fn binary_fn(op: InfixOp) -> BinaryFn {
    match op {
        InfixOp::Add => BinaryFn::Add,
        InfixOp::Sub => BinaryFn::Sub,
        InfixOp::Mul => BinaryFn::Mul,
        InfixOp::Div => BinaryFn::Div,
        InfixOp::Rem => BinaryFn::RemEuclid,
        InfixOp::Pow => BinaryFn::Pow,
    }
}

/// An operation in floating point.  A divisor that is zero is an error in
/// every representation; an integer exponent stays an integer.
pub open spec fn float_infix(op: InfixOp, a: Number, b: Number, floats: Seq<(FloatOp, Float)>) -> Result<
    Number,
    HaltView,
> {
    if (op is Div || op is Rem) && b.is_zero() {
        Err(HaltView::Error(EvalErrorView::DivisionByZero))
    } else {
        match as_float(a, floats) {
            Err(h) => Err(h),
            Ok(x) => {
                if op is Pow && b is Integer {
                    match ask(floats, FloatOp::Powi(x, b.num() as i64)) {
                        Err(h) => Err(h),
                        Ok(f) => Ok(Number::Float(f)),
                    }
                } else {
                    match as_float(b, floats) {
                        Err(h) => Err(h),
                        Ok(y) => match ask(floats, FloatOp::Binary(binary_fn(op), x, y)) {
                            Err(h) => Err(h),
                            Ok(f) => Ok(Number::Float(f)),
                        },
                    }
                }
            },
        }
    }
}

/// The result of an infix operator.
///
/// Exact operands give an exact result, except that a power whose exponent
/// is not a non-negative integer is computed in floating point.  Where an
/// operand is a double, so is the result.
pub open spec fn infix(op: InfixOp, a: Number, b: Number, floats: Seq<(FloatOp, Float)>) -> Result<
    Number,
    HaltView,
> {
    if a is Null || b is Null {
        Err(HaltView::Error(EvalErrorView::InvalidConversion(ValueKind::Null, ValueKind::Float)))
    } else if a is Float || b is Float {
        float_infix(op, a, b, floats)
    } else if op is Pow && !(b is Integer && b.num() >= 0) {
        float_infix(op, a, b, floats)
    } else {
        lift(exact_infix(op, a, b))
    }
}

/// The negative of a number, in its own representation.
pub open spec fn negate(a: Number) -> Result<Number, EvalErrorView> {
    match a {
        Number::Null => Err(EvalErrorView::InvalidConversion(ValueKind::Null, ValueKind::Float)),
        Number::Float(f) => Ok(Number::Float(f.negated())),
        _ => exact_neg(a),
    }
}

/// The absolute value of a number, in its own representation.
pub open spec fn absolute(a: Number) -> Result<Number, EvalErrorView> {
    match a {
        Number::Null => Err(EvalErrorView::InvalidConversion(ValueKind::Null, ValueKind::Float)),
        Number::Float(f) => Ok(Number::Float(f.absolute())),
        _ => exact_abs(a),
    }
}

/// The product of two 64-bit integers.
fn mul_wide(x: i64, y: i64) -> (r: i128)
    ensures
        r == x * y,
        -0x4000_0000_0000_0000_0000_0000_0000_0000 <= r <= 0x4000_0000_0000_0000_0000_0000_0000_0000,
        y >= 0 ==> -0x3fff_ffff_ffff_ffff_8000_0000_0000_0000 <= r
            <= 0x3fff_ffff_ffff_ffff_8000_0000_0000_0000,
{
    proof {
        if y >= 0 {
            assert(-0x3fff_ffff_ffff_ffff_8000_0000_0000_0000 <= x * y
                <= 0x3fff_ffff_ffff_ffff_8000_0000_0000_0000) by (nonlinear_arith)
                requires
                    -0x8000_0000_0000_0000 <= x <= 0x7fff_ffff_ffff_ffff,
                    0 <= y <= 0x7fff_ffff_ffff_ffff,
            ;
        }
        assert(-0x4000_0000_0000_0000_0000_0000_0000_0000 <= x * y
            <= 0x4000_0000_0000_0000_0000_0000_0000_0000) by (nonlinear_arith)
            requires
                -0x8000_0000_0000_0000 <= x <= 0x7fff_ffff_ffff_ffff,
                -0x8000_0000_0000_0000 <= y <= 0x7fff_ffff_ffff_ffff,
        ;
    }
    (x as i128) * (y as i128)
}

fn magnitude(x: i128) -> (m: u128)
    ensures
        m == abs(x as int),
{
    if x >= 0 {
        x as u128
    } else {
        ((-(x + 1)) as u128) + 1
    }
}

fn gcd_of(a: u128, b: u128) -> (g: u128)
    ensures
        g == gcd(a as nat, b as nat),
{
    let mut x: u128 = a;
    let mut y: u128 = b;
    while y != 0
        invariant
            gcd(x as nat, y as nat) == gcd(a as nat, b as nat),
        decreases y,
    {
        let r: u128 = x % y;
        x = y;
        y = r;
    }
    x
}

/// The least non-negative remainder of `x` by `m`.
fn euclid_mod(x: i128, m: u128) -> (r: u128)
    requires
        m > 0,
        m <= 0x4000_0000_0000_0000_0000_0000_0000_0000,
    ensures
        r == (x as int) % (m as int),
        r < m,
{
    let a: u128 = magnitude(x);
    let r: u128 = a % m;
    proof {
        lemma_fundamental_div_mod(a as int, m as int);
    }
    if x < 0 && r != 0 {
        proof {
            let q = (a / m) as int;
            assert(x == (-q - 1) * m + (m - r)) by (nonlinear_arith)
                requires
                    a == m * q + r,
                    x == -(a as int),
            ;
            lemma_fundamental_div_mod_converse(x as int, m as int, -q - 1, m - r);
        }
        m - r
    } else {
        proof {
            let q = (a / m) as int;
            if x < 0 {
                assert(x == (-q) * m + 0) by (nonlinear_arith)
                    requires
                        a == m * q + r,
                        r == 0,
                        x == -(a as int),
                ;
                lemma_fundamental_div_mod_converse(x as int, m as int, -q, 0);
            }
        }
        r
    }
}

/// The quotient of `x` by `d`, rounded down.
pub(crate) fn floor_div(x: i128, d: i128) -> (q: i128)
    requires
        0 < d <= 0x4000_0000_0000_0000_0000_0000_0000_0000,
        -0x4000_0000_0000_0000_0000_0000_0000_0000 <= x <= 0x4000_0000_0000_0000_0000_0000_0000_0000,
    ensures
        q == (x as int) / (d as int),
        -0x4000_0000_0000_0000_0000_0000_0000_0000 <= q <= 0x4000_0000_0000_0000_0000_0000_0000_0000,
{
    let r: u128 = euclid_mod(x, d as u128);
    let y: i128 = x - r as i128;
    proof {
        lemma_fundamental_div_mod(x as int, d as int);
        let k = (x as int) / (d as int);
        assert(-0x4000_0000_0000_0000_0000_0000_0000_0000 <= k
            <= 0x4000_0000_0000_0000_0000_0000_0000_0000) by (nonlinear_arith)
            requires
                x == d * k + r,
                0 <= r < d,
                1 <= d,
                -0x4000_0000_0000_0000_0000_0000_0000_0000 <= x
                    <= 0x4000_0000_0000_0000_0000_0000_0000_0000,
        ;
        assert(y == k * d + 0) by (nonlinear_arith)
            requires
                x == d * k + r,
                y == x - r,
        ;
        if y >= 0 {
            lemma_fundamental_div_mod_converse(y as int, d as int, k, 0);
        } else {
            assert(-y == (-k) * d + 0) by (nonlinear_arith)
                requires
                    y == k * d + 0,
            ;
            lemma_fundamental_div_mod_converse(-y as int, d as int, -k, 0);
        }
    }
    if y >= 0 {
        ((y as u128) / (d as u128)) as i128
    } else {
        -((((-y) as u128) / (d as u128)) as i128)
    }
}

/// The fraction `num / den` in lowest terms.
fn make_rational(num: i128, den: i128) -> (r: Result<Value, EvalError>)
    requires
        den > 0,
    ensures
        yields(r, rational(num as int, den as int)),
        r matches Ok(v) ==> v@.wf(),
{
    let a: u128 = magnitude(num);
    let b: u128 = den as u128;
    let g: u128 = gcd_of(a, b);
    proof {
        lemma_gcd_lowest_terms(a as nat, b as nat);
    }
    let x: u128 = a / g;
    let y: u128 = b / g;
    if y > i64::MAX as u128 {
        return Err(EvalError::Overflow);
    }
    if num < 0 {
        if x > 0x8000_0000_0000_0000 {
            return Err(EvalError::Overflow);
        }
        let n: i64 = if x == 0x8000_0000_0000_0000 {
            i64::MIN
        } else {
            -(x as i64)
        };
        Ok(Value::Rational(Ratio { num: n, den: y as i64 }))
    } else {
        if x > i64::MAX as u128 {
            return Err(EvalError::Overflow);
        }
        Ok(Value::Rational(Ratio { num: x as i64, den: y as i64 }))
    }
}

pub(crate) fn make_integer(i: i128) -> (r: Result<Value, EvalError>)
    ensures
        yields(r, integer(i as int)),
        r matches Ok(v) ==> v@.wf(),
{
    if i64::MIN as i128 <= i && i <= i64::MAX as i128 {
        Ok(Value::Integer(i as i64))
    } else {
        Err(EvalError::Overflow)
    }
}

/// `m` to the power `e`, where it is at most `limit`.
fn power_within(m: u128, e: u64, limit: u128) -> (r: Option<u128>)
    requires
        1 <= limit <= 0x8000_0000_0000_0000,
        m <= 0x8000_0000_0000_0000,
    ensures
        power(m as int, e as nat) <= limit ==> r == Some(power(m as int, e as nat) as u128),
        power(m as int, e as nat) > limit ==> r is None,
        power(m as int, e as nat) >= 0,
{
    if m == 0 {
        return if e == 0 {
            Some(1)
        } else {
            assert(power(0, e as nat) == 0 * power(0, (e - 1) as nat));
            Some(0)
        };
    }
    let mut acc: u128 = 1;
    let mut i: u64 = 0;
    proof {
        lemma_power_grows(m as nat, 0, e as nat);
    }
    while i < e
        invariant
            i <= e,
            1 <= m <= 0x8000_0000_0000_0000,
            1 <= limit <= 0x8000_0000_0000_0000,
            acc == power(m as int, i as nat),
            acc <= limit,
        decreases e - i,
    {
        if m == 1 {
            // every power of one is one
            assert(power(1, (i + 1) as nat) == 1 * power(1, i as nat));
            i = i + 1;
        } else {
            proof {
                assert(acc * m <= 0x4000_0000_0000_0000_0000_0000_0000_0000) by (nonlinear_arith)
                    requires
                        acc <= 0x8000_0000_0000_0000,
                        m <= 0x8000_0000_0000_0000,
                ;
                assert(power(m as int, (i + 1) as nat) == m * power(m as int, i as nat));
                lemma_power_grows(m as nat, (i + 1) as nat, e as nat);
            }
            let next: u128 = acc * m;
            if next > limit {
                return None;
            }
            acc = next;
            i = i + 1;
        }
    }
    Some(acc)
}

impl Value {
    /// No value.
    pub fn null() -> (v: Value)
        ensures
            v@ == Number::Null,
    {
        Value::Null
    }

    /// The integer `i`.
    pub fn from_integer(i: i64) -> (v: Value)
        ensures
            v@ == Number::Integer(i as int),
    {
        Value::Integer(i)
    }

    /// The double `f`.
    pub fn from_float(f: Float) -> (v: Value)
        ensures
            v@ == Number::Float(f),
    {
        Value::Float(f)
    }

    /// The fraction `num / den` in lowest terms; an error where `den` is
    /// zero or a component of the result does not fit.
    pub fn rational(num: i64, den: i64) -> (r: Result<Value, EvalError>)
        ensures
            yields(
                r,
                if den == 0 {
                    Err(EvalErrorView::DivisionByZero)
                } else if den > 0 {
                    rational(num as int, den as int)
                } else {
                    rational(-(num as int), -(den as int))
                },
            ),
    {
        if den == 0 {
            Err(EvalError::DivisionByZero)
        } else if den > 0 {
            make_rational(num as i128, den as i128)
        } else {
            make_rational(-(num as i128), -(den as i128))
        }
    }

    /// Every value stands for a well-formed number.
    fn check(&self)
        ensures
            self@.wf(),
    {
        match self {
            Value::Rational(r) => {
                proof {
                    use_type_invariant(r);
                }
            },
            _ => {},
        }
    }

    /// The representation of the value.
    pub fn kind(&self) -> (k: ValueKind)
        ensures
            k == self@.kind(),
    {
        match self {
            Value::Null => ValueKind::Null,
            Value::Integer(_) => ValueKind::Integer,
            Value::Rational(_) => ValueKind::Rational,
            Value::Float(_) => ValueKind::Float,
        }
    }

    /// Numerator and denominator of an exact value.
    fn fraction(&self) -> (f: (i64, i64))
        requires
            self@.is_exact(),
        ensures
            f.0 == self@.num(),
            f.1 == self@.den(),
            f.1 > 0,
            self@.wf(),
    {
        self.check();
        match self {
            Value::Integer(i) => (*i, 1),
            Value::Rational(r) => (r.numer(), r.denom()),
            _ => (0, 1),
        }
    }

    fn is_integer(&self) -> (r: bool)
        ensures
            r == (self@ is Integer),
    {
        match self {
            Value::Integer(_) => true,
            _ => false,
        }
    }

    /// Whether the two values stand for the same number.
    pub fn equals(&self, other: &Value) -> (r: bool)
        ensures
            r == same_number(self@, other@),
    {
        match (self, other) {
            (Value::Null, Value::Null) => true,
            (Value::Float(x), Value::Float(y)) => x.equals(*y),
            (Value::Null, _) | (_, Value::Null) => false,
            (Value::Float(_), _) | (_, Value::Float(_)) => false,
            _ => {
                let (an, ad) = self.fraction();
                let (bn, bd) = other.fraction();
                mul_wide(an, bd) == mul_wide(bn, ad)
            },
        }
    }

    /// Whether the value is zero.
    pub fn is_zero(&self) -> (r: bool)
        ensures
            r == self@.is_zero(),
    {
        match self {
            Value::Null => false,
            Value::Integer(i) => *i == 0,
            Value::Rational(r) => r.numer() == 0,
            Value::Float(f) => f.zero(),
        }
    }

    /// The result of an infix operator on two exact values.
    fn exact_arith(op: InfixOp, a: Value, b: Value) -> (r: Result<Value, EvalError>)
        requires
            a@.is_exact(),
            b@.is_exact(),
        ensures
            yields(r, exact_infix(op, a@, b@)),
            r matches Ok(v) ==> v@.wf(),
    {
        let (an, ad) = a.fraction();
        let (bn, bd) = b.fraction();
        let integers = a.is_integer() && b.is_integer();
        match op {
            InfixOp::Add => if integers {
                make_integer(an as i128 + bn as i128)
            } else {
                let den = mul_wide(ad, bd);
                proof {
                    assert(ad * bd > 0) by (nonlinear_arith)
                        requires
                            ad > 0,
                            bd > 0,
                    ;
                }
                make_rational(mul_wide(an, bd) + mul_wide(bn, ad), den)
            },
            InfixOp::Sub => if integers {
                make_integer(an as i128 - bn as i128)
            } else {
                let den = mul_wide(ad, bd);
                proof {
                    assert(ad * bd > 0) by (nonlinear_arith)
                        requires
                            ad > 0,
                            bd > 0,
                    ;
                }
                make_rational(mul_wide(an, bd) - mul_wide(bn, ad), den)
            },
            InfixOp::Mul => if integers {
                make_integer(mul_wide(an, bn))
            } else {
                let den = mul_wide(ad, bd);
                proof {
                    assert(ad * bd > 0) by (nonlinear_arith)
                        requires
                            ad > 0,
                            bd > 0,
                    ;
                }
                make_rational(mul_wide(an, bn), den)
            },
            InfixOp::Div => if bn == 0 {
                Err(EvalError::DivisionByZero)
            } else if bn > 0 {
                proof {
                    assert(ad * bn > 0) by (nonlinear_arith)
                        requires
                            ad > 0,
                            bn > 0,
                    ;
                }
                make_rational(mul_wide(an, bd), mul_wide(ad, bn))
            } else {
                proof {
                    assert(ad * bn < 0) by (nonlinear_arith)
                        requires
                            ad > 0,
                            bn < 0,
                    ;
                }
                make_rational(-mul_wide(an, bd), -mul_wide(ad, bn))
            },
            InfixOp::Rem => if bn == 0 {
                Err(EvalError::DivisionByZero)
            } else if integers {
                let r: u128 = euclid_mod(an as i128, magnitude(bn as i128));
                Ok(Value::Integer(r as i64))
            } else {
                let den = mul_wide(ad, bd);
                let modulus = mul_wide(bn, ad);
                proof {
                    assert(ad * bd > 0) by (nonlinear_arith)
                        requires
                            ad > 0,
                            bd > 0,
                    ;
                    assert(bn * ad != 0) by (nonlinear_arith)
                        requires
                            ad > 0,
                            bn != 0,
                    ;
                }
                let r: u128 = euclid_mod(mul_wide(an, bd), magnitude(modulus));
                make_rational(r as i128, den)
            },
            InfixOp::Pow => Value::exact_power(a, magnitude(bn as i128) as u64),
        }
    }

    /// An exact value to a natural power.
    fn exact_power(a: Value, e: u64) -> (r: Result<Value, EvalError>)
        requires
            a@.is_exact(),
        ensures
            yields(r, exact_pow(a@, e as nat)),
            r matches Ok(v) ==> v@.wf(),
    {
        let (n, d) = a.fraction();
        let negative = n < 0 && e % 2 == 1;
        let limit: u128 = if negative {
            0x8000_0000_0000_0000
        } else {
            0x7fff_ffff_ffff_ffff
        };
        proof {
            lemma_power_sign(n as int, e as nat);
            lemma_power_grows(d as nat, 0, e as nat);
        }
        let top = power_within(magnitude(n as i128), e, limit);
        match a {
            Value::Rational(_) => {
                let bottom = power_within(d as u128, e, 0x7fff_ffff_ffff_ffff);
                match (top, bottom) {
                    (Some(p), Some(q)) => {
                        let signed: i128 = if negative {
                            -(p as i128)
                        } else {
                            p as i128
                        };
                        make_rational(signed, q as i128)
                    },
                    _ => Err(EvalError::Overflow),
                }
            },
            _ => match top {
                Some(p) => {
                    let signed: i128 = if negative {
                        -(p as i128)
                    } else {
                        p as i128
                    };
                    make_integer(signed)
                },
                None => Err(EvalError::Overflow),
            },
        }
    }

    /// The negative of the value, in its own representation.
    pub fn neg(self) -> (r: Result<Value, EvalError>)
        ensures
            yields(r, negate(self@)),
    {
        match self {
            Value::Null => Err(EvalError::InvalidConversion(ValueKind::Null, ValueKind::Float)),
            Value::Float(f) => Ok(Value::Float(f.neg())),
            Value::Integer(i) => if i == i64::MIN {
                Err(EvalError::Overflow)
            } else {
                Ok(Value::Integer(-i))
            },
            Value::Rational(r) => {
                let n = r.numer();
                let d = r.denom();
                if n == i64::MIN {
                    Err(EvalError::Overflow)
                } else {
                    proof {
                        use_type_invariant(r);
                        assert(abs(-(n as int)) == abs(n as int));
                    }
                    Ok(Value::Rational(Ratio { num: -n, den: d }))
                }
            },
        }
    }

    /// The absolute value, in the value's own representation.
    pub fn abs(&self) -> (r: Result<Value, EvalError>)
        ensures
            yields(r, absolute(self@)),
    {
        match self {
            Value::Null => Err(EvalError::InvalidConversion(ValueKind::Null, ValueKind::Float)),
            Value::Float(f) => Ok(Value::Float(f.abs())),
            Value::Integer(i) => if *i < 0 {
                self.neg()
            } else {
                Ok(*self)
            },
            Value::Rational(r) => if r.numer() < 0 {
                self.neg()
            } else {
                Ok(*self)
            },
        }
    }

    /// The factorial of a non-negative integer.
    pub fn factorial(&self) -> (r: Result<Value, EvalError>)
        ensures
            yields(r, factorial_of(self@)),
    {
        match self {
            Value::Integer(n) => {
                let n: i64 = *n;
                if n < 0 {
                    return Err(EvalError::MathDomain(Domain::NonNegativeInteger));
                }
                let mut acc: u128 = 1;
                let mut i: i64 = 0;
                while i < n
                    invariant
                        0 <= i <= n,
                        self@ == Number::Integer(n as int),
                        acc == factorial(i as nat),
                        acc <= i64::MAX,
                    decreases n - i,
                {
                    proof {
                        assert(acc * (i + 1) <= 0x4000_0000_0000_0000_0000_0000_0000_0000)
                            by (nonlinear_arith)
                            requires
                                acc <= 0x8000_0000_0000_0000,
                                0 <= i + 1 <= 0x8000_0000_0000_0000,
                        ;
                        assert(factorial((i + 1) as nat) == (i + 1) * factorial(i as nat));
                        assert(acc * (i + 1) == (i + 1) * acc) by (nonlinear_arith);
                        lemma_factorial_grows((i + 1) as nat, n as nat);
                    }
                    let next: u128 = acc * ((i + 1) as u128);
                    if next > i64::MAX as u128 {
                        return Err(EvalError::Overflow);
                    }
                    acc = next;
                    i = i + 1;
                }
                Ok(Value::Integer(acc as i64))
            },
            _ => Err(EvalError::TypeError(ValueKind::Integer, self.kind())),
        }
    }

    /// The double that the value is or is nearest to.
    pub fn to_float(&self, floats: &FloatTable) -> (r: Result<Float, Halt>)
        ensures
            match (r, as_float(self@, floats@)) {
                (Ok(f), Ok(g)) => f == g,
                (Err(e), Err(h)) => e@ == h,
                _ => false,
            },
    {
        match self {
            Value::Null => Err(
                Halt::Error(EvalError::InvalidConversion(ValueKind::Null, ValueKind::Float)),
            ),
            Value::Integer(i) => request(floats, FloatOp::FromInteger(*i)),
            Value::Rational(r) => request(floats, FloatOp::FromRatio(r.numer(), r.denom())),
            Value::Float(f) => Ok(*f),
        }
    }

    fn float_arith(op: InfixOp, a: Value, b: Value, floats: &FloatTable) -> (r: Result<Value, Halt>)
        ensures
            halts(r, float_infix(op, a@, b@, floats@)),
            r matches Ok(v) ==> v@.wf(),
    {
        let divides = match op {
            InfixOp::Div | InfixOp::Rem => true,
            _ => false,
        };
        if divides && b.is_zero() {
            return Err(Halt::Error(EvalError::DivisionByZero));
        }
        let x = match a.to_float(floats) {
            Ok(x) => x,
            Err(h) => {
                return Err(h);
            },
        };
        let op_fn = match op {
            InfixOp::Add => BinaryFn::Add,
            InfixOp::Sub => BinaryFn::Sub,
            InfixOp::Mul => BinaryFn::Mul,
            InfixOp::Div => BinaryFn::Div,
            InfixOp::Rem => BinaryFn::RemEuclid,
            InfixOp::Pow => {
                if let Value::Integer(e) = b {
                    return match request(floats, FloatOp::Powi(x, e)) {
                        Ok(f) => Ok(Value::Float(f)),
                        Err(h) => Err(h),
                    };
                }
                BinaryFn::Pow
            },
        };
        let y = match b.to_float(floats) {
            Ok(y) => y,
            Err(h) => {
                return Err(h);
            },
        };
        match request(floats, FloatOp::Binary(op_fn, x, y)) {
            Ok(f) => Ok(Value::Float(f)),
            Err(h) => Err(h),
        }
    }

    /// Applies an infix operator.
    pub fn infix(op: InfixOp, lhs: Value, rhs: Value, floats: &FloatTable) -> (r: Result<Value, Halt>)
        ensures
            halts(r, infix(op, lhs@, rhs@, floats@)),
            r matches Ok(v) ==> v@.wf(),
    {
        let exact = match (lhs, rhs) {
            (Value::Null, _) | (_, Value::Null) => {
                return Err(
                    Halt::Error(EvalError::InvalidConversion(ValueKind::Null, ValueKind::Float)),
                );
            },
            (Value::Float(_), _) | (_, Value::Float(_)) => false,
            _ => true,
        };
        if !exact {
            return Value::float_arith(op, lhs, rhs, floats);
        }
        let promoted = match (op, rhs) {
            (InfixOp::Pow, Value::Integer(e)) => e < 0,
            (InfixOp::Pow, _) => true,
            _ => false,
        };
        if promoted {
            return Value::float_arith(op, lhs, rhs, floats);
        }
        match Value::exact_arith(op, lhs, rhs) {
            Ok(v) => Ok(v),
            Err(e) => Err(Halt::Error(e)),
        }
    }

    /// The sum.
    pub fn add(self, rhs: Value, floats: &FloatTable) -> (r: Result<Value, Halt>)
        ensures
            halts(r, infix(InfixOp::Add, self@, rhs@, floats@)),
    {
        Value::infix(InfixOp::Add, self, rhs, floats)
    }

    /// The difference.
    pub fn sub(self, rhs: Value, floats: &FloatTable) -> (r: Result<Value, Halt>)
        ensures
            halts(r, infix(InfixOp::Sub, self@, rhs@, floats@)),
    {
        Value::infix(InfixOp::Sub, self, rhs, floats)
    }

    /// The product.
    pub fn mul(self, rhs: Value, floats: &FloatTable) -> (r: Result<Value, Halt>)
        ensures
            halts(r, infix(InfixOp::Mul, self@, rhs@, floats@)),
    {
        Value::infix(InfixOp::Mul, self, rhs, floats)
    }

    /// The quotient: of two exact values a fraction.
    pub fn div(self, rhs: Value, floats: &FloatTable) -> (r: Result<Value, Halt>)
        ensures
            halts(r, infix(InfixOp::Div, self@, rhs@, floats@)),
    {
        Value::infix(InfixOp::Div, self, rhs, floats)
    }

    /// The least non-negative remainder.
    pub fn rem_euclid(self, rhs: Value, floats: &FloatTable) -> (r: Result<Value, Halt>)
        ensures
            halts(r, infix(InfixOp::Rem, self@, rhs@, floats@)),
    {
        Value::infix(InfixOp::Rem, self, rhs, floats)
    }

    /// The power: exact for an exponent that is a non-negative integer.
    pub fn pow(self, rhs: Value, floats: &FloatTable) -> (r: Result<Value, Halt>)
        ensures
            halts(r, infix(InfixOp::Pow, self@, rhs@, floats@)),
    {
        Value::infix(InfixOp::Pow, self, rhs, floats)
    }
}

/// Looks the result of `op` up.
pub fn request(floats: &FloatTable, op: FloatOp) -> (r: Result<Float, Halt>)
    ensures
        match (r, ask(floats@, op)) {
            (Ok(f), Ok(g)) => f == g,
            (Err(e), Err(h)) => e@ == h,
            _ => false,
        },
{
    match floats.get(op) {
        Some(f) => Ok(f),
        None => Err(Halt::Pending(op)),
    }
}

} // verus!
