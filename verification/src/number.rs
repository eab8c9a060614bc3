//! The numbers that values stand for, and the arithmetic of the language on
//! them.
//!
//! Exact numbers are integers and fractions in lowest terms.  Their
//! components are 64-bit: an exact operation gives the exact result, or the
//! error `Overflow` where a component of that result leaves the range.

use vstd::prelude::*;
use vstd::arithmetic::div_mod::{
    lemma_fundamental_div_mod, lemma_fundamental_div_mod_converse, lemma_truncate_middle,
};
use crate::errors::{Domain, EvalErrorView, ValueKind};
use crate::float::Float;
use crate::operators::InfixOp;

verus! {

/// The absolute value.
pub open spec fn abs(x: int) -> nat {
    if x < 0 {
        (-x) as nat
    } else {
        x as nat
    }
}

/// The greatest common divisor, by Euclid's algorithm.
pub open spec fn gcd(a: nat, b: nat) -> nat
    decreases b,
{
    if b == 0 {
        a
    } else {
        gcd(b, a % b)
    }
}

/// `b` to the power `e`.
pub open spec fn power(b: int, e: nat) -> int
    decreases e,
{
    if e == 0 {
        1
    } else {
        b * power(b, (e - 1) as nat)
    }
}

/// The product `1 * 2 * ... * n`.
pub open spec fn factorial(n: nat) -> nat
    decreases n,
{
    if n == 0 {
        1
    } else {
        n * factorial((n - 1) as nat)
    }
}

/// Whether an integer can be a component of an exact value.
pub open spec fn fits(i: int) -> bool {
    i64::MIN <= i <= i64::MAX
}

/// The number that a value stands for.
pub enum Number {
    Null,
    Integer(int),
    /// Numerator and denominator.
    Rational(int, int),
    Float(Float),
}

impl Number {
    /// The representation of the number.
    pub open spec fn kind(self) -> ValueKind {
        match self {
            Number::Null => ValueKind::Null,
            Number::Integer(_) => ValueKind::Integer,
            Number::Rational(_, _) => ValueKind::Rational,
            Number::Float(_) => ValueKind::Float,
        }
    }

    /// Whether the number is an integer or a fraction.
    pub open spec fn is_exact(self) -> bool {
        self is Integer || self is Rational
    }

    /// The numerator of an exact number.
    pub open spec fn num(self) -> int {
        match self {
            Number::Integer(i) => i,
            Number::Rational(n, _) => n,
            _ => 0,
        }
    }

    /// The denominator of an exact number.
    pub open spec fn den(self) -> int {
        match self {
            Number::Rational(_, d) => d,
            _ => 1,
        }
    }

    /// Whether the number is zero; a double, whether it is `+0.0` or `-0.0`.
    pub open spec fn is_zero(self) -> bool {
        match self {
            Number::Null => false,
            Number::Integer(i) => i == 0,
            Number::Rational(n, _) => n == 0,
            Number::Float(f) => f.is_zero(),
        }
    }

    /// What holds of every number that a value stands for: the components
    /// are in range, and a fraction is in lowest terms over a positive
    /// denominator.
    pub open spec fn wf(self) -> bool {
        match self {
            Number::Integer(i) => fits(i),
            Number::Rational(n, d) => fits(n) && 0 < d <= i64::MAX && gcd(abs(n), d as nat) == 1,
            _ => true,
        }
    }
}

/// Whether two numbers are equal: within the exact numbers and within the
/// floats by value, and never across.
pub open spec fn same_number(a: Number, b: Number) -> bool {
    match (a, b) {
        (Number::Null, Number::Null) => true,
        (Number::Float(x), Number::Float(y)) => x.same_number(y),
        _ => a.is_exact() && b.is_exact() && a.num() * b.den() == b.num() * a.den(),
    }
}

/// The fraction `num / den`, `den > 0`, in lowest terms.
pub open spec fn lowest_terms(num: int, den: int) -> (int, int) {
    let g = gcd(abs(num), abs(den));
    if num < 0 {
        (-(abs(num) / g), den / (g as int))
    } else {
        (num / (g as int), den / (g as int))
    }
}

/// The integer `i` as a value, where it fits.
pub open spec fn integer(i: int) -> Result<Number, EvalErrorView> {
    if fits(i) {
        Ok(Number::Integer(i))
    } else {
        Err(EvalErrorView::Overflow)
    }
}

/// The fraction `num / den`, `den > 0`, as a value, where it fits.
pub open spec fn rational(num: int, den: int) -> Result<Number, EvalErrorView> {
    let (n, d) = lowest_terms(num, den);
    if fits(n) && fits(d) {
        Ok(Number::Rational(n, d))
    } else {
        Err(EvalErrorView::Overflow)
    }
}

/// Sum, difference, product, quotient and remainder of two exact numbers,
/// and the first to the power of the absolute value of the second, which
/// is an integer.
///
/// Two integers give an integer, but for the quotient, which is a fraction
/// whenever the divisor is not zero.  The remainder is the least
/// non-negative one.
pub open spec fn exact_infix(op: InfixOp, a: Number, b: Number) -> Result<Number, EvalErrorView> {
    let integers = a is Integer && b is Integer;
    match op {
        InfixOp::Add => if integers {
            integer(a.num() + b.num())
        } else {
            rational(a.num() * b.den() + b.num() * a.den(), a.den() * b.den())
        },
        InfixOp::Sub => if integers {
            integer(a.num() - b.num())
        } else {
            rational(a.num() * b.den() - b.num() * a.den(), a.den() * b.den())
        },
        InfixOp::Mul => if integers {
            integer(a.num() * b.num())
        } else {
            rational(a.num() * b.num(), a.den() * b.den())
        },
        InfixOp::Div => if b.num() == 0 {
            Err(EvalErrorView::DivisionByZero)
        } else if b.num() > 0 {
            rational(a.num() * b.den(), a.den() * b.num())
        } else {
            rational(-(a.num() * b.den()), -(a.den() * b.num()))
        },
        InfixOp::Rem => if b.num() == 0 {
            Err(EvalErrorView::DivisionByZero)
        } else if integers {
            Ok(Number::Integer(a.num() % (abs(b.num()) as int)))
        } else {
            rational(
                (a.num() * b.den()) % (abs(b.num() * a.den()) as int),
                a.den() * b.den(),
            )
        },
        InfixOp::Pow => exact_pow(a, abs(b.num())),
    }
}

/// An exact number to a natural power.
pub open spec fn exact_pow(a: Number, e: nat) -> Result<Number, EvalErrorView> {
    match a {
        Number::Rational(n, d) => {
            if fits(power(n, e)) && fits(power(d, e)) {
                rational(power(n, e), power(d, e))
            } else {
                Err(EvalErrorView::Overflow)
            }
        },
        _ => integer(power(a.num(), e)),
    }
}

/// The negative of an exact number.
pub open spec fn exact_neg(a: Number) -> Result<Number, EvalErrorView> {
    if !fits(-a.num()) {
        Err(EvalErrorView::Overflow)
    } else {
        match a {
            Number::Rational(n, d) => Ok(Number::Rational(-n, d)),
            _ => Ok(Number::Integer(-a.num())),
        }
    }
}

/// The absolute value of an exact number.
pub open spec fn exact_abs(a: Number) -> Result<Number, EvalErrorView> {
    if a.num() < 0 {
        exact_neg(a)
    } else {
        Ok(a)
    }
}

/// The factorial of a number: of a non-negative integer, where it fits.
pub open spec fn factorial_of(a: Number) -> Result<Number, EvalErrorView> {
    match a {
        Number::Integer(i) => {
            if i < 0 {
                Err(EvalErrorView::MathDomain(Domain::NonNegativeInteger))
            } else {
                integer(factorial(i as nat) as int)
            }
        },
        _ => Err(EvalErrorView::TypeError(ValueKind::Integer, a.kind())),
    }
}

/// The greatest common divisor of numbers that are not both zero is not zero.
pub proof fn lemma_gcd_positive(a: nat, b: nat)
    requires
        a > 0 || b > 0,
    ensures
        gcd(a, b) > 0,
    decreases b,
{
    if b != 0 {
        lemma_gcd_positive(b, a % b);
    }
}

/// The greatest common divisor divides both numbers.
pub proof fn lemma_gcd_divides(a: nat, b: nat)
    requires
        a > 0 || b > 0,
    ensures
        gcd(a, b) > 0,
        a == gcd(a, b) * (a / gcd(a, b)),
        b == gcd(a, b) * (b / gcd(a, b)),
    decreases b,
{
    lemma_gcd_positive(a, b);
    let g = gcd(a, b) as int;
    if b != 0 {
        let r = a % b;
        lemma_gcd_divides(b, r);
        let kb = (b / gcd(b, r)) as int;
        let kr = (r / gcd(b, r)) as int;
        let q = (a / b) as int;
        lemma_fundamental_div_mod(a as int, b as int);
        assert(a == g * (kb * q + kr)) by (nonlinear_arith)
            requires
                a == b * q + r,
                b == g * kb,
                r == g * kr,
        ;
        assert(a == (kb * q + kr) * g + 0) by (nonlinear_arith)
            requires
                a == g * (kb * q + kr),
        ;
        lemma_fundamental_div_mod_converse(a as int, g, kb * q + kr, 0);
    } else {
        assert(a == 1 * g + 0);
        lemma_fundamental_div_mod_converse(a as int, g, 1, 0);
        assert(0 == 0 * g + 0);
        lemma_fundamental_div_mod_converse(0, g, 0, 0);
    }
}

/// A common factor of both numbers is a factor of their greatest common
/// divisor.
pub proof fn lemma_gcd_scale(k: nat, a: nat, b: nat)
    requires
        k > 0,
    ensures
        gcd(k * a, k * b) == k * gcd(a, b),
    decreases b,
{
    if b == 0 {
        assert(k * b == 0);
    } else {
        lemma_truncate_middle(a as int, k as int, b as int);
        lemma_gcd_scale(k, b, a % b);
        assert((k * a) % (k * b) == k * (a % b));
        assert(k * b > 0);
    }
}

/// Dividing both numbers by their greatest common divisor leaves numbers
/// without a common divisor.
pub proof fn lemma_gcd_lowest_terms(a: nat, b: nat)
    requires
        b > 0,
    ensures
        gcd(a, b) > 0,
        a == gcd(a, b) * (a / gcd(a, b)),
        b == gcd(a, b) * (b / gcd(a, b)),
        b / gcd(a, b) > 0,
        gcd(a / gcd(a, b), b / gcd(a, b)) == 1,
{
    lemma_gcd_divides(a, b);
    let g = gcd(a, b);
    let x = a / g;
    let y = b / g;
    lemma_gcd_scale(g, x, y);
    assert(gcd(x, y) == 1) by (nonlinear_arith)
        requires
            g == g * gcd(x, y),
            g > 0,
    ;
    assert(y > 0) by (nonlinear_arith)
        requires
            b == g * y,
            b > 0,
            g > 0,
    ;
}

/// Powers of a positive base are positive and grow with the exponent.
pub proof fn lemma_power_grows(b: nat, i: nat, j: nat)
    requires
        b >= 1,
        i <= j,
    ensures
        1 <= power(b as int, i) <= power(b as int, j),
    decreases j,
{
    if i == 0 {
        if j > 0 {
            lemma_power_grows(b, 0, (j - 1) as nat);
            assert(power(b as int, j) >= 1) by (nonlinear_arith)
                requires
                    power(b as int, j) == b * power(b as int, (j - 1) as nat),
                    power(b as int, (j - 1) as nat) >= 1,
                    b >= 1,
            ;
        }
    } else {
        lemma_power_grows(b, (i - 1) as nat, (j - 1) as nat);
        assert(power(b as int, i) <= power(b as int, j) && 1 <= power(b as int, i))
            by (nonlinear_arith)
            requires
                power(b as int, j) == b * power(b as int, (j - 1) as nat),
                power(b as int, i) == b * power(b as int, (i - 1) as nat),
                1 <= power(b as int, (i - 1) as nat) <= power(b as int, (j - 1) as nat),
                b >= 1,
        ;
    }
}

/// A power of a negative base is that of its absolute value, negated for
/// an odd exponent.
pub proof fn lemma_power_sign(b: int, e: nat)
    ensures
        power(b, e) == if b < 0 && e % 2 == 1 {
            -power(abs(b) as int, e)
        } else {
            power(abs(b) as int, e)
        },
    decreases e,
{
    if e > 0 {
        lemma_power_sign(b, (e - 1) as nat);
        let p = power(abs(b) as int, (e - 1) as nat);
        if b < 0 {
            if e % 2 == 1 {
                assert(b * p == -((-b) * p)) by (nonlinear_arith);
            } else {
                assert(b * (-p) == (-b) * p) by (nonlinear_arith);
            }
        }
    }
}

/// Factorials are positive and grow with the argument.
pub proof fn lemma_factorial_grows(i: nat, j: nat)
    requires
        i <= j,
    ensures
        1 <= factorial(i) <= factorial(j),
    decreases j,
{
    if j > 0 {
        if i < j {
            lemma_factorial_grows(i, (j - 1) as nat);
            assert(factorial(j) >= factorial((j - 1) as nat)) by (nonlinear_arith)
                requires
                    factorial(j) == j * factorial((j - 1) as nat),
                    j >= 1,
                    factorial((j - 1) as nat) >= 1,
            ;
        } else {
            lemma_factorial_grows(0, (j - 1) as nat);
            assert(factorial(j) >= 1) by (nonlinear_arith)
                requires
                    factorial(j) == j * factorial((j - 1) as nat),
                    j >= 1,
                    factorial((j - 1) as nat) >= 1,
            ;
        }
    }
}

/// Reducing a fraction leaves its quotient: the result is in lowest terms
/// over a positive denominator, and the two cross-multiply.
pub proof fn lemma_lowest_terms(num: int, den: int)
    requires
        den > 0,
    ensures
        lowest_terms(num, den).1 > 0,
        gcd(abs(lowest_terms(num, den).0), lowest_terms(num, den).1 as nat) == 1,
        lowest_terms(num, den).0 * den == num * lowest_terms(num, den).1,
{
    let a = abs(num);
    let b = den as nat;
    lemma_gcd_lowest_terms(a, b);
    let g = gcd(a, b);
    let x = a / g;
    let y = b / g;
    if num < 0 {
        assert((-(x as int)) * den == num * y) by (nonlinear_arith)
            requires
                a == g * x,
                den == g * y,
                num == -(a as int),
        ;
    } else {
        assert(x * den == num * y) by (nonlinear_arith)
            requires
                a == g * x,
                den == g * y,
                num == a,
        ;
    }
}

} // verus!
