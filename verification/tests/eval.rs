use seva::args::{fix_in_range, AngleUnit};
use seva::context::Context;
use seva::default_context::create_context;
use seva::dict::Dict;
use seva::errors::{Domain, EvalError, Halt, ValueKind};
use seva::expression::Expr;
use seva::float::{BinaryFn, Float, FloatOp, FloatTable, UnaryFn};
use seva::function::{Builtin, Function};
use seva::operators::{InfixOp, PostfixOp, PrefixOp};
use seva::parser::lex_and_parse;
use seva::statement::Stmt;
use seva::token::Decimal;
use seva::value::Value;
use seva::variable::Variable;

/// The floating-point operations, in hardware doubles.
fn compute(op: &FloatOp) -> Float {
    let f = |x: Float| f64::from_bits(x.bits);
    let r: f64 = match *op {
        FloatOp::Literal(d) => format!("{}e{}", d.mantissa, d.exponent).parse::<f64>().unwrap(),
        FloatOp::FromInteger(i) => i as f64,
        FloatOp::FromRatio(n, d) => n as f64 / d as f64,
        FloatOp::Unary(u, x) => {
            let x = f(x);
            match u {
                UnaryFn::Sin => x.sin(),
                UnaryFn::Cos => x.cos(),
                UnaryFn::Tan => x.tan(),
                UnaryFn::Asin => x.asin(),
                UnaryFn::Acos => x.acos(),
                UnaryFn::Atan => x.atan(),
                UnaryFn::Sinh => x.sinh(),
                UnaryFn::Cosh => x.cosh(),
                UnaryFn::Tanh => x.tanh(),
                UnaryFn::Sqrt => x.sqrt(),
                UnaryFn::Exp => x.exp(),
                UnaryFn::Exp2 => x.exp2(),
                UnaryFn::Ln => x.ln(),
                UnaryFn::Log2 => x.log2(),
                UnaryFn::Log10 => x.log10(),
                UnaryFn::ToRadians => x.to_radians(),
                UnaryFn::ToDegrees => x.to_degrees(),
                UnaryFn::Floor => x.floor(),
                UnaryFn::Ceil => x.ceil(),
                UnaryFn::Round => x.round(),
                UnaryFn::Recip => x.recip(),
            }
        }
        FloatOp::Binary(b, x, y) => {
            let (x, y) = (f(x), f(y));
            match b {
                BinaryFn::Add => x + y,
                BinaryFn::Sub => x - y,
                BinaryFn::Mul => x * y,
                BinaryFn::Div => x / y,
                BinaryFn::RemEuclid => x.rem_euclid(y),
                BinaryFn::Pow => x.powf(y),
                BinaryFn::Log => x.log(y),
            }
        }
        FloatOp::Powi(x, e) => match i32::try_from(e) {
            Ok(e) => f(x).powi(e),
            Err(_) => f(x).powf(e as f64),
        },
    };
    Float { bits: r.to_bits() }
}

/// Evaluates the statement, computing the floating-point results that it
/// asks for.
fn run(stmt: &Stmt, context: &mut Context) -> Result<Value, Halt> {
    let mut floats = FloatTable::new();
    loop {
        match stmt.clone().eval(context, &floats, 64) {
            Err(Halt::Pending(op)) => floats.record(op, compute(&op)),
            other => return other,
        }
    }
}

fn run_expr(expr: &Expr, context: &mut Context) -> Result<Value, Halt> {
    let mut floats = FloatTable::new();
    loop {
        match expr.eval(context, &floats, 64) {
            Err(Halt::Pending(op)) => floats.record(op, compute(&op)),
            other => return other,
        }
    }
}

fn evaluate(context: &mut Context, line: &str) -> Result<Value, EvalError> {
    let stmt = lex_and_parse(line).expect("the line parses");
    match run(&stmt, context) {
        Ok(v) => Ok(v),
        Err(Halt::Error(e)) => Err(e),
        Err(other) => panic!("unexpected halt {:?}", other),
    }
}

fn radian() -> Context {
    create_context(&AngleUnit::Radian)
}

fn integer(i: i64) -> Value {
    Value::from_integer(i)
}

fn double(x: f64) -> Value {
    Value::from_float(Float { bits: x.to_bits() })
}

fn ratio(n: i64, d: i64) -> Value {
    Value::rational(n, d).unwrap()
}

fn literal(value: f64, mantissa: u128, exponent: i64) -> Expr {
    assert_eq!(format!("{}e{}", mantissa, exponent).parse::<f64>().unwrap(), value);
    Expr::Float(Decimal { mantissa, exponent })
}

fn as_f64(v: Value) -> f64 {
    match v {
        Value::Float(f) => f64::from_bits(f.bits),
        other => panic!("{:?} is no float", other),
    }
}

#[test]
fn test_number() {
    let mut context = radian();
    let expr = literal(42.0, 42, 0);
    assert_eq!(run_expr(&expr, &mut context).unwrap(), double(42.0));
}

#[test]
fn test_infix_op_add() {
    let mut context = radian();
    let expr = Expr::InfixOp {
        op: InfixOp::Add,
        lhs: Box::new(literal(1.0, 1, 0)),
        rhs: Box::new(literal(2.0, 2, 0)),
    };
    assert_eq!(run_expr(&expr, &mut context).unwrap(), double(3.0));
}

#[test]
fn test_prefix_op_neg() {
    let mut context = radian();
    let expr = Expr::PrefixOp { op: PrefixOp::Neg, arg: Box::new(literal(5.0, 5, 0)) };
    assert_eq!(run_expr(&expr, &mut context).unwrap(), double(-5.0));
}

#[test]
fn test_postfix_op_fac() {
    let mut context = radian();
    // the factorial is one of integers: of a float it is a type error
    let expr = Expr::PostfixOp { op: PostfixOp::Fac, arg: Box::new(literal(5.0, 5, 0)) };
    assert_eq!(
        run_expr(&expr, &mut context),
        Err(Halt::Error(EvalError::TypeError(ValueKind::Integer, ValueKind::Float)))
    );
    let expr = Expr::PostfixOp { op: PostfixOp::Fac, arg: Box::new(Expr::Int(5)) };
    assert_eq!(run_expr(&expr, &mut context).unwrap(), integer(120));
}

#[test]
fn test_fn_call() {
    let mut context = radian();
    let expr = Expr::FnCall {
        name: "mock_fn".to_string(),
        args: vec![literal(2.0, 2, 0), literal(3.0, 3, 0)],
    };
    context.set_function(
        "mock_fn",
        vec!["x".into(), "y".into()],
        Expr::InfixOp {
            op: InfixOp::Add,
            lhs: Expr::Variable("x".into()).into(),
            rhs: Expr::Variable("y".into()).into(),
        },
    );
    assert_eq!(run_expr(&expr, &mut context).unwrap(), double(5.0));
}

#[test]
fn test_def_var_eval() {
    let mut context = radian();
    let stmt = Stmt::DefVar { name: "x".to_string(), expr: literal(42.0, 42, 0) };
    assert_eq!(run(&stmt, &mut context).unwrap(), double(42.0));
    assert_eq!(context.get_variable("x").unwrap().get(), double(42.0));
}

#[test]
fn test_def_fun_eval() {
    let mut context = radian();
    let stmt = Stmt::DefFun {
        name: "add".to_string(),
        arg_names: vec!["a".to_string(), "b".to_string()],
        body: Expr::InfixOp {
            op: InfixOp::Add,
            lhs: Box::new(Expr::Variable("a".to_string())),
            rhs: Box::new(Expr::Variable("b".to_string())),
        },
    };
    assert!(run(&stmt, &mut context).is_ok());
    assert!(context.get_function("add").is_some());
}

#[test]
fn test_expr_eval() {
    let mut context = radian();
    let stmt = Stmt::Expr(literal(42.0, 42, 0));
    assert_eq!(run(&stmt, &mut context).unwrap(), double(42.0));
}

#[test]
fn power_associates_to_the_right() {
    let mut context = radian();
    assert_eq!(evaluate(&mut context, "2^3^2"), Ok(integer(512)));
    assert_eq!(evaluate(&mut context, "(2^3)^2"), Ok(integer(64)));
}

#[test]
fn juxtaposition_and_subtraction() {
    let mut context = radian();
    assert_eq!(evaluate(&mut context, "5 - 3"), Ok(integer(2)));
    assert_eq!(evaluate(&mut context, "5 (3)"), Ok(integer(15)));
    assert_eq!(evaluate(&mut context, "(5 + 3)(-3)"), Ok(integer(-24)));
    assert_eq!(evaluate(&mut context, "2 (3 + 4)"), Ok(integer(14)));
}

#[test]
fn division_of_integers_is_exact() {
    let mut context = radian();
    assert_eq!(evaluate(&mut context, "1/3"), Ok(ratio(1, 3)));
    let back = evaluate(&mut context, "_ * 3").unwrap();
    assert_eq!(back, integer(1));
    assert!(matches!(back, Value::Rational(r) if r.numer() == 1 && r.denom() == 1));
    let six = evaluate(&mut context, "6/3").unwrap();
    assert!(matches!(six, Value::Rational(r) if r.numer() == 2 && r.denom() == 1));
    let half = evaluate(&mut context, "2/-4").unwrap();
    assert!(matches!(half, Value::Rational(r) if r.numer() == -1 && r.denom() == 2));
}

#[test]
fn division_by_zero() {
    let mut context = radian();
    assert_eq!(evaluate(&mut context, "1/0"), Err(EvalError::DivisionByZero));
    assert_eq!(evaluate(&mut context, "1.0/0.0"), Err(EvalError::DivisionByZero));
    assert_eq!(evaluate(&mut context, "1.0/0"), Err(EvalError::DivisionByZero));
    assert_eq!(evaluate(&mut context, "1/-0.0"), Err(EvalError::DivisionByZero));
    assert_eq!(evaluate(&mut context, "1 % 0"), Err(EvalError::DivisionByZero));
    assert_eq!(evaluate(&mut context, "1.5 % 0.0"), Err(EvalError::DivisionByZero));
    assert_eq!(evaluate(&mut context, "(1/2) / (0/3)"), Err(EvalError::DivisionByZero));
}

#[test]
fn domains_of_the_builtins() {
    let mut context = radian();
    assert_eq!(
        evaluate(&mut context, "sqrt(-1)"),
        Err(EvalError::MathDomain(Domain::NonNegative))
    );
    assert_eq!(
        evaluate(&mut context, "asin(2)"),
        Err(EvalError::MathDomain(Domain::UnitInterval))
    );
    assert_eq!(
        evaluate(&mut context, "acos(-1.5)"),
        Err(EvalError::MathDomain(Domain::UnitInterval))
    );
    assert_eq!(evaluate(&mut context, "log(0,10)"), Err(EvalError::MathDomain(Domain::Positive)));
    assert_eq!(evaluate(&mut context, "ln(0)"), Err(EvalError::MathDomain(Domain::Positive)));
    assert_eq!(evaluate(&mut context, "log2(-1)"), Err(EvalError::MathDomain(Domain::Positive)));
    assert_eq!(evaluate(&mut context, "log10(-0.0)"), Err(EvalError::MathDomain(Domain::Positive)));
    assert_eq!(evaluate(&mut context, "nroot(-8, 3)"), Err(EvalError::MathDomain(Domain::Root)));
    assert_eq!(evaluate(&mut context, "nroot(8, 0)"), Err(EvalError::MathDomain(Domain::Root)));
    assert_eq!(as_f64(evaluate(&mut context, "sqrt(16)").unwrap()), 4.0);
    assert_eq!(as_f64(evaluate(&mut context, "sqrt(-0.0)").unwrap()), 0.0);
    assert_eq!(as_f64(evaluate(&mut context, "asin(1)").unwrap()), 1f64.asin());
    assert_eq!(as_f64(evaluate(&mut context, "acos(-1)").unwrap()), (-1f64).acos());
    assert_eq!(as_f64(evaluate(&mut context, "nroot(8, 3)").unwrap()), 8f64.powf(3f64.recip()));
    assert_eq!(as_f64(evaluate(&mut context, "log(8, 2)").unwrap()), 8f64.log(2.0));
}

#[test]
fn factorial() {
    let mut context = radian();
    assert_eq!(evaluate(&mut context, "5!"), Ok(integer(120)));
    assert_eq!(evaluate(&mut context, "0!"), Ok(integer(1)));
    assert_eq!(evaluate(&mut context, "20!"), Ok(integer(2432902008176640000)));
    assert_eq!(evaluate(&mut context, "21!"), Err(EvalError::Overflow));
    assert_eq!(
        evaluate(&mut context, "(-1)!"),
        Err(EvalError::MathDomain(Domain::NonNegativeInteger))
    );
    assert_eq!(
        evaluate(&mut context, "(1/2)!"),
        Err(EvalError::TypeError(ValueKind::Integer, ValueKind::Rational))
    );
    assert_eq!(
        evaluate(&mut context, "2.0!"),
        Err(EvalError::TypeError(ValueKind::Integer, ValueKind::Float))
    );
}

#[test]
fn builtin_constants_are_protected() {
    let mut context = radian();
    assert_eq!(
        evaluate(&mut context, "let pi = 4"),
        Err(EvalError::InvalidVariableDefinition(String::from("pi")))
    );
    assert_eq!(
        evaluate(&mut context, "let e = 1"),
        Err(EvalError::InvalidVariableDefinition(String::from("e")))
    );
    assert_eq!(
        evaluate(&mut context, "let tau = 1"),
        Err(EvalError::InvalidVariableDefinition(String::from("tau")))
    );
    assert_eq!(as_f64(evaluate(&mut context, "pi").unwrap()), std::f64::consts::PI);
    assert_eq!(as_f64(evaluate(&mut context, "e").unwrap()), std::f64::consts::E);
    assert_eq!(as_f64(evaluate(&mut context, "tau").unwrap()), std::f64::consts::TAU);
    // a variable of the user can be bound again
    assert_eq!(evaluate(&mut context, "let x = 4"), Ok(integer(4)));
    assert_eq!(evaluate(&mut context, "let x = 5"), Ok(integer(5)));
    assert_eq!(evaluate(&mut context, "x"), Ok(integer(5)));
    // a builtin function can be defined anew
    assert!(matches!(evaluate(&mut context, "let sin(x) = x"), Ok(Value::Null)));
    assert_eq!(evaluate(&mut context, "sin(3)"), Ok(integer(3)));
}

#[test]
fn parameters_do_not_leak() {
    let mut context = radian();
    assert!(matches!(evaluate(&mut context, "let fact(n) = n!"), Ok(Value::Null)));
    assert_eq!(evaluate(&mut context, "fact(5)"), Ok(integer(120)));
    assert_eq!(evaluate(&mut context, "n"), Err(EvalError::VariableNotFound(String::from("n"))));
    assert_eq!(evaluate(&mut context, "fact(fact(3))"), Ok(integer(720)));
    assert_eq!(evaluate(&mut context, "n"), Err(EvalError::VariableNotFound(String::from("n"))));
    // nor after a call that fails
    assert_eq!(
        evaluate(&mut context, "fact(-1)"),
        Err(EvalError::MathDomain(Domain::NonNegativeInteger))
    );
    assert_eq!(evaluate(&mut context, "n"), Err(EvalError::VariableNotFound(String::from("n"))));
    assert_eq!(context.depth(), 1);
    // a parameter hides a variable of the caller and leaves it as it was
    assert_eq!(evaluate(&mut context, "let n = 7"), Ok(integer(7)));
    assert_eq!(evaluate(&mut context, "fact(3) + n"), Ok(integer(13)));
    // the body sees the variables of the caller
    assert!(matches!(evaluate(&mut context, "let plus(m) = m + n"), Ok(Value::Null)));
    assert_eq!(evaluate(&mut context, "plus(1)"), Ok(integer(8)));
    assert!(matches!(evaluate(&mut context, "let twice(n) = plus(n) + plus(n)"), Ok(Value::Null)));
    assert_eq!(evaluate(&mut context, "twice(1)"), Ok(integer(4)));
}

#[test]
fn previous_answer() {
    let mut context = radian();
    assert_eq!(evaluate(&mut context, "_"), Err(EvalError::NoHistory));
    assert_eq!(evaluate(&mut context, "3+4"), Ok(integer(7)));
    assert_eq!(evaluate(&mut context, "_*2"), Ok(integer(14)));
    assert_eq!(evaluate(&mut context, "_"), Ok(integer(14)));
    // a statement that fails or defines leaves the answer
    assert_eq!(evaluate(&mut context, "1/0"), Err(EvalError::DivisionByZero));
    assert_eq!(evaluate(&mut context, "let y = 1"), Ok(integer(1)));
    assert!(matches!(evaluate(&mut context, "let f(x) = x"), Ok(Value::Null)));
    assert_eq!(evaluate(&mut context, "_"), Ok(integer(14)));
}

#[test]
fn number_of_arguments() {
    let mut context = radian();
    assert!(matches!(evaluate(&mut context, "let add(a, b) = a + b"), Ok(Value::Null)));
    assert_eq!(evaluate(&mut context, "add(1, 2)"), Ok(integer(3)));
    assert_eq!(evaluate(&mut context, "add(1)"), Err(EvalError::InvalidNumberOfArguments(2, 1)));
    assert_eq!(
        evaluate(&mut context, "add(1, 2, 3)"),
        Err(EvalError::InvalidNumberOfArguments(2, 3))
    );
    assert_eq!(evaluate(&mut context, "add()"), Err(EvalError::InvalidNumberOfArguments(2, 0)));
    assert_eq!(evaluate(&mut context, "sin()"), Err(EvalError::InvalidNumberOfArguments(1, 0)));
    assert_eq!(evaluate(&mut context, "sin(1, 2)"), Err(EvalError::InvalidNumberOfArguments(1, 2)));
    assert_eq!(evaluate(&mut context, "log(1)"), Err(EvalError::InvalidNumberOfArguments(2, 1)));
    assert_eq!(
        evaluate(&mut context, "nope(1)"),
        Err(EvalError::FunctionNotFound(String::from("nope")))
    );
    // the arguments are evaluated before the function is looked up
    assert_eq!(evaluate(&mut context, "nope(1/0)"), Err(EvalError::DivisionByZero));
    assert_eq!(
        evaluate(&mut context, "add(zz, 1/0)"),
        Err(EvalError::VariableNotFound(String::from("zz")))
    );
}

#[test]
fn exact_arithmetic() {
    let mut context = radian();
    assert_eq!(evaluate(&mut context, "1/2 + 1/3"), Ok(ratio(5, 6)));
    assert_eq!(evaluate(&mut context, "1/2 - 1/3"), Ok(ratio(1, 6)));
    assert_eq!(evaluate(&mut context, "(2/3) * (9/4)"), Ok(ratio(3, 2)));
    assert_eq!(evaluate(&mut context, "(2/3) / (4/9)"), Ok(ratio(3, 2)));
    assert_eq!(evaluate(&mut context, "(2/3) / (-4/9)"), Ok(ratio(-3, 2)));
    assert_eq!(evaluate(&mut context, "1/2 + 1"), Ok(ratio(3, 2)));
    assert_eq!(evaluate(&mut context, "3 * (1/3)"), Ok(integer(1)));
    assert_eq!(evaluate(&mut context, "(2/3)^2"), Ok(ratio(4, 9)));
    assert_eq!(evaluate(&mut context, "(-2/3)^3"), Ok(ratio(-8, 27)));
    assert_eq!(evaluate(&mut context, "(-2)^3"), Ok(integer(-8)));
    assert_eq!(evaluate(&mut context, "(-2)^2"), Ok(integer(4)));
    assert_eq!(evaluate(&mut context, "0^0"), Ok(integer(1)));
    assert_eq!(evaluate(&mut context, "7^0"), Ok(integer(1)));
    assert_eq!(evaluate(&mut context, "(-1)^9223372036854775807"), Ok(integer(-1)));
    assert_eq!(evaluate(&mut context, "1^9223372036854775807"), Ok(integer(1)));
    assert_eq!(evaluate(&mut context, "2^62"), Ok(integer(1 << 62)));
    assert_eq!(evaluate(&mut context, "(-2)^63"), Ok(integer(i64::MIN)));
    assert_eq!(evaluate(&mut context, "2^63"), Err(EvalError::Overflow));
    assert_eq!(evaluate(&mut context, "(1/2)^63"), Err(EvalError::Overflow));
    assert_eq!(evaluate(&mut context, "-7 % 3"), Ok(integer(2)));
    assert_eq!(evaluate(&mut context, "7 % (-3)"), Ok(integer(1)));
    assert_eq!(evaluate(&mut context, "(-7) % (-3)"), Ok(integer(2)));
    assert_eq!(evaluate(&mut context, "(7/2) % 1"), Ok(ratio(1, 2)));
    assert_eq!(evaluate(&mut context, "(-7/2) % (3/2)"), Ok(ratio(1, 1)));
    assert_eq!(evaluate(&mut context, "-(1/2)"), Ok(ratio(-1, 2)));
    assert_eq!(evaluate(&mut context, "abs(-3)"), Ok(integer(3)));
    assert_eq!(evaluate(&mut context, "abs(-3/4)"), Ok(ratio(3, 4)));
    assert_eq!(evaluate(&mut context, "abs(-2.5)"), Ok(double(2.5)));
    assert_eq!(evaluate(&mut context, "abs(7)"), Ok(integer(7)));
}

#[test]
fn overflow_of_exact_results() {
    let mut context = radian();
    assert_eq!(evaluate(&mut context, "9223372036854775807 + 1"), Err(EvalError::Overflow));
    assert_eq!(evaluate(&mut context, "-9223372036854775807 - 2"), Err(EvalError::Overflow));
    assert_eq!(
        evaluate(&mut context, "-9223372036854775807 - 1"),
        Ok(integer(i64::MIN))
    );
    assert_eq!(evaluate(&mut context, "4294967296 * 4294967296"), Err(EvalError::Overflow));
    assert_eq!(evaluate(&mut context, "-(-9223372036854775807 - 1)"), Err(EvalError::Overflow));
    assert_eq!(evaluate(&mut context, "abs(-9223372036854775807 - 1)"), Err(EvalError::Overflow));
    assert_eq!(
        evaluate(&mut context, "1/9223372036854775807 + 1/9223372036854775806"),
        Err(EvalError::Overflow)
    );
    assert_eq!(evaluate(&mut context, "1 / (-9223372036854775807 - 1)"), Err(EvalError::Overflow));
    assert_eq!(
        evaluate(&mut context, "(-9223372036854775807 - 1) % (-1)"),
        Ok(integer(0))
    );
}

#[test]
fn floats_take_over() {
    let mut context = radian();
    assert_eq!(evaluate(&mut context, "1 + 2.5"), Ok(double(3.5)));
    assert_eq!(evaluate(&mut context, "2.5 - 1"), Ok(double(1.5)));
    assert_eq!(evaluate(&mut context, "1/2 + 0.25"), Ok(double(0.75)));
    assert_eq!(evaluate(&mut context, "2.0 * 3"), Ok(double(6.0)));
    assert_eq!(evaluate(&mut context, "7.5 / 2.5"), Ok(double(3.0)));
    assert_eq!(evaluate(&mut context, "-7.5 % 2"), Ok(double((-7.5f64).rem_euclid(2.0))));
    assert_eq!(evaluate(&mut context, "2^-1"), Ok(double(0.5)));
    assert_eq!(evaluate(&mut context, "2.0^3"), Ok(double(8.0)));
    assert_eq!(evaluate(&mut context, "4^0.5"), Ok(double(2.0)));
    assert_eq!(evaluate(&mut context, "4^(1/2)"), Ok(double(2.0)));
    assert_eq!(evaluate(&mut context, "2^(4/2)"), Ok(double(4.0)));
    assert_eq!(evaluate(&mut context, "-2.5"), Ok(double(-2.5)));
    assert_eq!(evaluate(&mut context, "1e-2"), Ok(double(0.01)));
    // an exact number and a float are never equal
    assert_ne!(integer(1), double(1.0));
    assert_eq!(double(0.0), double(-0.0));
    assert_ne!(double(f64::NAN), double(f64::NAN));
    assert_eq!(integer(2), ratio(4, 2));
    assert_ne!(integer(2), ratio(5, 2));
    assert_eq!(Value::null(), Value::null());
    assert_ne!(Value::null(), integer(0));
}

#[test]
fn functions_of_the_library() {
    let mut context = radian();
    let mut close = |line: &str, expected: f64| {
        let v = as_f64(evaluate(&mut context, line).unwrap());
        assert!((v - expected).abs() <= 1e-12 * expected.abs().max(1.0), "{}: {} {}", line, v, expected);
    };
    close("sin(1)", 1f64.sin());
    close("cos(1)", 1f64.cos());
    close("tan(1)", 1f64.tan());
    close("sec(1)", 1.0 / 1f64.cos());
    close("csc(1)", 1.0 / 1f64.sin());
    close("cot(1)", 1.0 / 1f64.tan());
    close("atan(1)", 1f64.atan());
    close("sinh(1)", 1f64.sinh());
    close("cosh(1)", 1f64.cosh());
    close("tanh(1)", 1f64.tanh());
    close("exp(1)", std::f64::consts::E);
    close("exp2(10)", 1024.0);
    close("ln(e)", 1.0);
    close("log2(8)", 3.0);
    close("log10(1000)", 3.0);
    close("rad(180)", std::f64::consts::PI);
    close("deg(pi)", 180.0);
    close("2 sin(pi/2)", 2.0);
}

#[test]
fn angles_in_degrees() {
    let mut context = create_context(&AngleUnit::Degrees);
    assert_eq!(evaluate(&mut context, "sin(90)"), Ok(double(90f64.to_radians().sin())));
    assert_eq!(evaluate(&mut context, "cos(60.0)"), Ok(double(60f64.to_radians().cos())));
    assert_eq!(evaluate(&mut context, "asin(1)"), Ok(double(1f64.asin().to_degrees())));
    assert_eq!(evaluate(&mut context, "acos(0)"), Ok(double(0f64.acos().to_degrees())));
    assert_eq!(evaluate(&mut context, "atan(1)"), Ok(double(1f64.atan().to_degrees())));
    assert_eq!(
        evaluate(&mut context, "sec(60)"),
        Ok(double(60f64.to_radians().cos().recip()))
    );
    assert_eq!(evaluate(&mut context, "sinh(1)"), Ok(double(1f64.sinh())));
    let mut radians = radian();
    assert_eq!(evaluate(&mut radians, "sin(90)"), Ok(double(90f64.sin())));
}

#[test]
fn rounding_to_integers() {
    let mut context = radian();
    assert_eq!(evaluate(&mut context, "floor(7/2)"), Ok(integer(3)));
    assert_eq!(evaluate(&mut context, "ceil(7/2)"), Ok(integer(4)));
    assert_eq!(evaluate(&mut context, "round(7/2)"), Ok(integer(4)));
    assert_eq!(evaluate(&mut context, "round(5/2)"), Ok(integer(3)));
    assert_eq!(evaluate(&mut context, "round(7/3)"), Ok(integer(2)));
    assert_eq!(evaluate(&mut context, "floor(-7/2)"), Ok(integer(-4)));
    assert_eq!(evaluate(&mut context, "ceil(-7/2)"), Ok(integer(-3)));
    assert_eq!(evaluate(&mut context, "round(-5/2)"), Ok(integer(-3)));
    assert_eq!(evaluate(&mut context, "round(-7/3)"), Ok(integer(-2)));
    assert_eq!(evaluate(&mut context, "floor(5)"), Ok(integer(5)));
    assert_eq!(evaluate(&mut context, "floor(2.7)"), Ok(integer(2)));
    assert_eq!(evaluate(&mut context, "floor(-2.5)"), Ok(integer(-3)));
    assert_eq!(evaluate(&mut context, "ceil(2.1)"), Ok(integer(3)));
    assert_eq!(evaluate(&mut context, "ceil(-0.5)"), Ok(integer(0)));
    assert_eq!(evaluate(&mut context, "round(2.5)"), Ok(integer(3)));
    assert_eq!(evaluate(&mut context, "round(-2.5)"), Ok(integer(-3)));
    assert_eq!(evaluate(&mut context, "round(0.4)"), Ok(integer(0)));
    assert_eq!(evaluate(&mut context, "floor(1e15 + 0.5)"), Ok(integer(1_000_000_000_000_000)));
    assert_eq!(evaluate(&mut context, "floor(4611686018427387904.0)"), Ok(integer(1 << 62)));
    assert_eq!(
        evaluate(&mut context, "floor(-9223372036854775808.0)"),
        Ok(integer(i64::MIN))
    );
    assert_eq!(evaluate(&mut context, "floor(9223372036854775808.0)"), Err(EvalError::Overflow));
    assert_eq!(evaluate(&mut context, "round(1e300)"), Err(EvalError::Overflow));
    assert_eq!(evaluate(&mut context, "floor(sqrt(-0.0) / 1e-320 * 0.0 + exp(1000))"), Err(EvalError::Overflow));
}

#[test]
fn integral_doubles() {
    let of = |x: f64| Float { bits: x.to_bits() }.to_integer();
    assert_eq!(of(0.0), Some(0));
    assert_eq!(of(-0.0), Some(0));
    assert_eq!(of(1.0), Some(1));
    assert_eq!(of(-1.0), Some(-1));
    assert_eq!(of(3.0), Some(3));
    assert_eq!(of(0.5), None);
    assert_eq!(of(1.5), None);
    assert_eq!(of(-2.75), None);
    assert_eq!(of(4503599627370496.0), Some(1 << 52));
    assert_eq!(of(4503599627370497.0), Some((1 << 52) + 1));
    assert_eq!(of(9007199254740993.0), Some(9007199254740992));
    assert_eq!(of(-123456789.0), Some(-123456789));
    assert_eq!(of(9223372036854775808.0), None);
    assert_eq!(of(-9223372036854775808.0), Some(i64::MIN));
    assert_eq!(of(-9223372036854777856.0), None);
    assert_eq!(of(f64::INFINITY), None);
    assert_eq!(of(f64::NEG_INFINITY), None);
    assert_eq!(of(f64::NAN), None);
    assert_eq!(of(f64::MIN_POSITIVE), None);
    assert_eq!(of(5e-324), None);
    for i in [7i64, -7, 1000, 65536, 1 << 40, -(1 << 53), 123456789012] {
        assert_eq!(of(i as f64), Some(i));
    }
}

#[test]
fn what_the_bits_of_a_double_say() {
    let f = |x: f64| Float { bits: x.to_bits() };
    for x in [0.0, -0.0, 1.0, -1.0, 0.5, -0.5, 1.0000000000000002, 2.0, -3.5, 1e300, -1e-300,
        f64::INFINITY, f64::NEG_INFINITY, f64::NAN, -f64::NAN, f64::MIN_POSITIVE, 5e-324]
    {
        assert_eq!(f(x).nan(), x.is_nan(), "{}", x);
        assert_eq!(f(x).zero(), x == 0.0, "{}", x);
        assert_eq!(f(x).nonnegative(), 0.0 <= x, "{}", x);
        assert_eq!(f(x).positive(), 0.0 < x, "{}", x);
        assert_eq!(f(x).within_unit_interval(), (-1.0..=1.0).contains(&x), "{}", x);
        assert_eq!(f(x).neg().to_bits(), (-x).to_bits(), "{}", x);
        assert_eq!(f(x).abs().to_bits(), x.abs().to_bits(), "{}", x);
        for y in [0.0, -0.0, 1.0, f64::NAN, x] {
            assert_eq!(f(x).equals(f(y)), x == y, "{} {}", x, y);
        }
    }
    assert_eq!(Float::from_bits(0x3ff0_0000_0000_0000).to_bits(), 1f64.to_bits());
}

#[test]
fn recursion_has_a_limit() {
    let mut context = radian();
    assert!(matches!(evaluate(&mut context, "let f(x) = f(x + 1)"), Ok(Value::Null)));
    let stmt = lex_and_parse("f(1)").unwrap();
    assert_eq!(run(&stmt, &mut context), Err(Halt::DepthExceeded));
    assert_eq!(context.depth(), 1);
    assert_eq!(evaluate(&mut context, "x"), Err(EvalError::VariableNotFound(String::from("x"))));
    // a call chain within the limit
    assert!(matches!(evaluate(&mut context, "let a(x) = x + 1"), Ok(Value::Null)));
    assert!(matches!(evaluate(&mut context, "let b(x) = a(a(x))"), Ok(Value::Null)));
    assert!(matches!(evaluate(&mut context, "let c(x) = b(b(x))"), Ok(Value::Null)));
    assert_eq!(evaluate(&mut context, "c(c(0))"), Ok(integer(8)));
    // with no depth at all only builtins can be called
    let stmt = lex_and_parse("a(1)").unwrap();
    assert_eq!(stmt.clone().eval(&mut context, &FloatTable::new(), 0), Err(Halt::DepthExceeded));
    assert_eq!(stmt.eval(&mut context, &FloatTable::new(), 1), Ok(integer(2)));
}

#[test]
fn evaluation_asks_for_what_the_table_lacks() {
    let mut context = radian();
    let stmt = lex_and_parse("let h = 1.5 + 2").unwrap();
    let mut floats = FloatTable::new();
    let literal = FloatOp::Literal(Decimal { mantissa: 15, exponent: -1 });
    assert_eq!(stmt.clone().eval(&mut context, &floats, 8), Err(Halt::Pending(literal)));
    assert!(context.get_variable("h").is_none());
    floats.record(literal, Float { bits: 1.5f64.to_bits() });
    assert_eq!(floats.get(literal), Some(Float { bits: 1.5f64.to_bits() }));
    assert_eq!(
        stmt.clone().eval(&mut context, &floats, 8),
        Err(Halt::Pending(FloatOp::FromInteger(2)))
    );
    floats.record(FloatOp::FromInteger(2), Float { bits: 2f64.to_bits() });
    let sum = FloatOp::Binary(
        BinaryFn::Add,
        Float { bits: 1.5f64.to_bits() },
        Float { bits: 2f64.to_bits() },
    );
    assert_eq!(stmt.clone().eval(&mut context, &floats, 8), Err(Halt::Pending(sum)));
    assert!(context.get_variable("h").is_none());
    // the first result recorded for an operation stays
    floats.record(sum, Float { bits: 3.5f64.to_bits() });
    floats.record(sum, Float { bits: 99f64.to_bits() });
    assert_eq!(floats.len(), 4);
    assert_eq!(stmt.eval(&mut context, &floats, 8), Ok(double(3.5)));
    assert_eq!(context.get_variable("h").unwrap().get(), double(3.5));
    floats.clear();
    assert_eq!(floats.get(sum), None);
}

#[test]
fn scopes_of_a_context() {
    let mut functions: Dict<Function> = Dict::new();
    functions.insert(String::from("root"), Function::new_external(Builtin::Sqrt, AngleUnit::Radian));
    let mut variables: Dict<Variable> = Dict::new();
    variables.insert(String::from("k"), Variable::External(integer(3)));
    variables.insert(String::from("v"), Variable::Internal(integer(4)));
    let mut context = Context::new(functions, variables);
    assert_eq!(context.depth(), 1);
    assert!(context.get_prev_answer().is_none());
    assert!(context.get_function("root").unwrap().is_external());
    assert_eq!(context.get_function("root").unwrap().arity(), 1);
    assert!(context.get_function("sqrt").is_none());
    assert!(context.get_variable("k").unwrap().is_external());
    assert!(!context.get_variable("v").unwrap().is_external());
    assert_eq!(context.set_variable("k", integer(5)), None);
    assert_eq!(context.get_variable("k").unwrap().get(), integer(3));
    assert_eq!(context.set_variable("v", integer(5)), Some(integer(5)));
    assert_eq!(context.get_variable("v").unwrap().get(), integer(5));

    context.extend();
    assert_eq!(context.depth(), 2);
    // the inner scope sees the outer one and can hide a name of it
    assert_eq!(context.get_variable("v").unwrap().get(), integer(5));
    assert_eq!(context.set_variable("k", integer(9)), Some(integer(9)));
    assert_eq!(context.get_variable("k").unwrap().get(), integer(9));
    assert_eq!(context.set_variable("w", integer(1)), Some(integer(1)));
    context.detach();
    assert_eq!(context.depth(), 1);
    assert_eq!(context.get_variable("k").unwrap().get(), integer(3));
    assert!(context.get_variable("w").is_none());

    context.set_prev_answer(&integer(8));
    assert_eq!(context.get_prev_answer(), Some(integer(8)));
    context.set_function("root", vec![String::from("x")], Expr::Variable(String::from("x")));
    assert!(!context.get_function("root").unwrap().is_external());
    let f = Function::new_internal(vec![String::from("x")], Expr::Variable(String::from("x")));
    assert_eq!(f.call(vec![integer(2)], &mut context, &FloatTable::new(), 4), Ok(integer(2)));
    assert_eq!(
        f.call(vec![], &mut context, &FloatTable::new(), 4),
        Err(Halt::Error(EvalError::InvalidNumberOfArguments(1, 0)))
    );
    assert_eq!(context.depth(), 1);
}

#[test]
fn number_of_decimal_places() {
    assert!(fix_in_range(&None));
    assert!(fix_in_range(&Some(0)));
    assert!(fix_in_range(&Some(63)));
    assert!(!fix_in_range(&Some(64)));
    assert!(!fix_in_range(&Some(usize::MAX)));
}

#[test]
fn values_of_themselves() {
    assert_eq!(Value::rational(1, 0), Err(EvalError::DivisionByZero));
    assert_eq!(Value::rational(i64::MIN, -1), Err(EvalError::Overflow));
    assert_eq!(Value::rational(6, -4).unwrap(), ratio(-3, 2));
    assert_eq!(Value::null().kind(), ValueKind::Null);
    assert_eq!(integer(1).kind(), ValueKind::Integer);
    assert_eq!(ratio(1, 2).kind(), ValueKind::Rational);
    assert_eq!(double(1.0).kind(), ValueKind::Float);
    assert!(integer(0).is_zero() && ratio(0, 5).is_zero() && double(-0.0).is_zero());
    assert!(!integer(1).is_zero() && !Value::null().is_zero());
    let floats = FloatTable::new();
    assert_eq!(integer(2).add(integer(3), &floats), Ok(integer(5)));
    assert_eq!(integer(2).sub(integer(3), &floats), Ok(integer(-1)));
    assert_eq!(integer(2).mul(integer(3), &floats), Ok(integer(6)));
    assert_eq!(integer(2).div(integer(3), &floats), Ok(ratio(2, 3)));
    assert_eq!(integer(2).rem_euclid(integer(3), &floats), Ok(integer(2)));
    assert_eq!(integer(2).pow(integer(3), &floats), Ok(integer(8)));
    assert_eq!(integer(2).neg(), Ok(integer(-2)));
    assert_eq!(integer(-2).abs(), Ok(integer(2)));
    assert_eq!(integer(3).factorial(), Ok(integer(6)));
    assert_eq!(
        Value::null().add(integer(1), &floats),
        Err(Halt::Error(EvalError::InvalidConversion(ValueKind::Null, ValueKind::Float)))
    );
    assert_eq!(
        integer(1).to_float(&floats),
        Err(Halt::Pending(FloatOp::FromInteger(1)))
    );
    assert_eq!(
        ratio(1, 2).to_float(&floats),
        Err(Halt::Pending(FloatOp::FromRatio(1, 2)))
    );
    assert_eq!(double(1.0).to_float(&floats), Ok(Float { bits: 1f64.to_bits() }));
    assert_eq!(
        double(2.0).pow(integer(-2), &floats),
        Err(Halt::Pending(FloatOp::Powi(Float { bits: 2f64.to_bits() }, -2)))
    );
}
