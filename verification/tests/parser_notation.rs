use seva::expression::Expr;
use seva::operators::InfixOp::{Add, Div, Mul, Pow, Rem, Sub};
use seva::operators::{InfixOp, PostfixOp, PrefixOp};
use seva::parser::{expression, lex_and_parse, significant};
use seva::statement::Stmt;
use seva::token::{lex, Decimal};

/// The literal written as the integer `n`, which denotes `value`.
fn whole(value: f64, n: i64) -> Expr {
    assert_eq!(n as f64, value);
    Expr::Int(n)
}

/// The literal `mantissa × 10^exponent`, which denotes `value`.
fn number(value: f64, mantissa: u128, exponent: i64) -> Expr {
    assert_eq!(format!("{}e{}", mantissa, exponent).parse::<f64>().unwrap(), value);
    Expr::Float(Decimal { mantissa, exponent })
}

fn var(name: &str) -> Expr {
    Expr::Variable(String::from(name))
}

fn preop(arg: Expr) -> Expr {
    Expr::PrefixOp { op: PrefixOp::Neg, arg: Box::new(arg) }
}

fn proop(arg: Expr) -> Expr {
    Expr::PostfixOp { op: PostfixOp::Fac, arg: Box::new(arg) }
}

fn binop(op: InfixOp, lhs: Expr, rhs: Expr) -> Expr {
    Expr::InfixOp { op, lhs: Box::new(lhs), rhs: Box::new(rhs) }
}

fn call(name: &str, args: Vec<Expr>) -> Expr {
    Expr::FnCall { name: String::from(name), args }
}

fn parse_expr(input: &str) -> Result<Expr, String> {
    let tokens = significant(&lex(input));
    expression(&tokens, input.len()).map_err(|e| format!("failed to parse {:?}", e))
}

fn parse_stmt(input: &str) -> Result<Stmt, String> {
    lex_and_parse(input).map_err(|e| format!("failed to parse {:?}", e))
}

// A sign is no part of a literal: `-` before a literal is the negation of it.

#[test]
fn parser_number() {
    assert_eq!(parse_expr("1"), Ok(whole(1., 1)));
    assert_eq!(parse_expr("   1"), Ok(whole(1., 1)));
    assert_eq!(parse_expr("0"), Ok(whole(0., 0)));
    assert_eq!(parse_expr("2.5"), Ok(number(2.5, 25, -1)));
    assert_eq!(parse_expr("1e3"), Ok(number(1e3, 1, 3)));
    assert_eq!(parse_expr("1e-3"), Ok(number(1e-3, 1, -3)));
    assert_eq!(parse_expr("2.5e2"), Ok(number(2.5e2, 25, 1)));
    assert_eq!(parse_expr("2.5e-2"), Ok(number(2.5e-2, 25, -3)));
    assert_eq!(parse_expr("-1"), Ok(preop(whole(1., 1))));
    assert_eq!(parse_expr("-2.5"), Ok(preop(number(2.5, 25, -1))));
    assert_eq!(parse_expr("-1e3"), Ok(preop(number(1e3, 1, 3))));
    assert_eq!(parse_expr("-1e-3"), Ok(preop(number(1e-3, 1, -3))));
    assert_eq!(parse_expr("-2.5e2"), Ok(preop(number(2.5e2, 25, 1))));
    assert_eq!(parse_expr("-2.5e-2"), Ok(preop(number(2.5e-2, 25, -3))));

    // a fraction may have no digits
    assert_eq!(parse_expr("0."), Ok(number(0., 0, 0)));

    // Tests that should fail
    assert!(parse_expr("1..2").is_err());
    assert!(parse_expr("2.5.2").is_err());
    assert!(parse_expr("1e3.5").is_err());
    assert!(parse_expr("1e3 .5").is_err());
    assert!(parse_expr("1e3. 5").is_err());
    assert!(parse_expr("1e3 . 5").is_err());
}

#[test]
fn parser_basic_ops() {
    assert_eq!(parse_expr("6*3"), Ok(binop(Mul, whole(6., 6), whole(3., 3))));
    assert_eq!(parse_expr("6 * 3"), Ok(binop(Mul, whole(6., 6), whole(3., 3))));
    assert_eq!(parse_expr("6* 3"), Ok(binop(Mul, whole(6., 6), whole(3., 3))));
    assert_eq!(parse_expr("6 *3"), Ok(binop(Mul, whole(6., 6), whole(3., 3))));
    assert_eq!(parse_expr("6+3"), Ok(binop(Add, whole(6., 6), whole(3., 3))));
    assert_eq!(parse_expr("6-3"), Ok(binop(Sub, whole(6., 6), whole(3., 3))));
    assert_eq!(parse_expr("6/3"), Ok(binop(Div, whole(6., 6), whole(3., 3))));
    assert_eq!(parse_expr("6%3"), Ok(binop(Rem, whole(6., 6), whole(3., 3))));
    assert_eq!(parse_expr("2^3"), Ok(binop(Pow, whole(2., 2), whole(3., 3))));

    // Different number notations
    assert_eq!(parse_expr("1e3 + 2.5"), Ok(binop(Add, number(1e3, 1, 3), number(2.5, 25, -1))));
    assert_eq!(parse_expr("1e-3 * 2.5"), Ok(binop(Mul, number(1e-3, 1, -3), number(2.5, 25, -1))));
    assert_eq!(parse_expr("2.5e2 - 1"), Ok(binop(Sub, number(2.5e2, 25, 1), whole(1., 1))));
    assert_eq!(
        parse_expr("2.5e-2 / 1e3"),
        Ok(binop(Div, number(2.5e-2, 25, -3), number(1e3, 1, 3)))
    );
    assert_eq!(
        parse_expr("-1e3 + 2.5"),
        Ok(binop(Add, preop(number(1e3, 1, 3)), number(2.5, 25, -1)))
    );
    assert_eq!(parse_expr("2.5e2 % 1e3"), Ok(binop(Rem, number(2.5e2, 25, 1), number(1e3, 1, 3))));

    assert_eq!(
        parse_expr("2 + 3 * 4"),
        Ok(binop(Add, whole(2., 2), binop(Mul, whole(3., 3), whole(4., 4))))
    );
    assert_eq!(
        parse_expr("(2 + 3) * 4"),
        Ok(binop(Mul, binop(Add, whole(2., 2), whole(3., 3)), whole(4., 4)))
    );
    assert_eq!(
        parse_expr("2 * (3 + 4)"),
        Ok(binop(Mul, whole(2., 2), binop(Add, whole(3., 3), whole(4., 4))))
    );
    assert_eq!(
        parse_expr("2 * 3 + 4"),
        Ok(binop(Add, binop(Mul, whole(2., 2), whole(3., 3)), whole(4., 4)))
    );
    assert_eq!(
        parse_expr("2 + 3 * 4 - 5 / 6"),
        Ok(binop(
            Sub,
            binop(Add, whole(2., 2), binop(Mul, whole(3., 3), whole(4., 4))),
            binop(Div, whole(5., 5), whole(6., 6))
        ))
    );
    assert_eq!(
        parse_expr("2 * (3 + 4) - 5 % 6"),
        Ok(binop(
            Sub,
            binop(Mul, whole(2., 2), binop(Add, whole(3., 3), whole(4., 4))),
            binop(Rem, whole(5., 5), whole(6., 6))
        ))
    );
    assert_eq!(parse_expr("5!"), Ok(proop(whole(5., 5))));
    assert_eq!(parse_expr("-(2 + 3)"), Ok(preop(binop(Add, whole(2., 2), whole(3., 3)))));
    assert_eq!(
        parse_expr("-(2 * 3) + 4"),
        Ok(binop(Add, preop(binop(Mul, whole(2., 2), whole(3., 3))), whole(4., 4)))
    );
    assert_eq!(
        parse_expr("2 * -(3 + 4)"),
        Ok(binop(Mul, whole(2., 2), preop(binop(Add, whole(3., 3), whole(4., 4)))))
    );
    assert_eq!(
        parse_expr("-(2 * 3 + 4)"),
        Ok(preop(binop(Add, binop(Mul, whole(2., 2), whole(3., 3)), whole(4., 4))))
    );
    assert_eq!(parse_expr("3! + 4"), Ok(binop(Add, proop(whole(3., 3)), whole(4., 4))));
    assert_eq!(parse_expr("-(3!)"), Ok(preop(proop(whole(3., 3)))));
    // the factorial binds tighter than the negation
    assert_eq!(parse_expr("-3!"), Ok(preop(proop(whole(3., 3)))));
    assert_eq!(parse_expr("2 ^ 3!"), Ok(binop(Pow, whole(2., 2), proop(whole(3., 3)))));
    assert_eq!(parse_expr("-(2 ^ 3)"), Ok(preop(binop(Pow, whole(2., 2), whole(3., 3)))));
    assert_eq!(parse_expr("-2^3"), Ok(binop(Pow, preop(whole(2., 2)), whole(3., 3))));
    assert_eq!(parse_expr("2 ^ -3"), Ok(binop(Pow, whole(2., 2), preop(whole(3., 3)))));
    assert_eq!(
        parse_expr("-(2 ^ -3)"),
        Ok(preop(binop(Pow, whole(2., 2), preop(whole(3., 3)))))
    );
    assert_eq!(parse_expr("-(-3)"), Ok(preop(preop(whole(3., 3)))));
    assert_eq!(
        parse_expr("-2 (-3)"),
        Ok(binop(Mul, preop(whole(2., 2)), preop(whole(3., 3))))
    );
    assert_eq!(
        parse_expr("(5 + 3)  (-3)"),
        Ok(binop(Mul, binop(Add, whole(5., 5), whole(3., 3)), preop(whole(3., 3))))
    );
    assert_eq!(
        parse_expr("(5 % 3)  2"),
        Ok(binop(Mul, binop(Rem, whole(5., 5), whole(3., 3)), whole(2., 2)))
    );
    // a negation takes a term that does not start with `-`
    assert!(parse_expr("--1").is_err());
    assert!(parse_expr("--3").is_err());

    // Failing tests
    assert!(parse_expr("2 ** 3").is_err());
    assert!(parse_expr("2 // 3").is_err());
    assert!(parse_expr("2 %% 3").is_err());
    assert!(parse_expr("2 ^^ 3").is_err());
    assert!(parse_expr("2 +* 3").is_err());
    assert!(parse_expr("2 *+ 3").is_err());
    assert!(parse_expr("2 + 3 *").is_err());
    assert!(parse_expr("2 * (3 + 4").is_err());
    assert!(parse_expr("2 * 3 + 4)").is_err());
    assert!(parse_expr("2 * (3 + )").is_err());
    assert!(parse_expr("2 * (3 + 4))").is_err());
    assert!(parse_expr("2 * ((3 + 4)").is_err());
    assert!(parse_expr("2 * (3 + (4)").is_err());
    assert!(parse_expr("2 * (3 + 4))").is_err());
    assert!(parse_expr("2 * (3 + 4) -").is_err());
    assert!(parse_expr("2 * (3 + 4) - 5 %").is_err());
    assert!(parse_expr("2 * (3 + 4) - 5 % 6)").is_err());
}

#[test]
fn parser_function_calls() {
    // Unary function calls
    assert_eq!(parse_expr("sin(0)"), Ok(call("sin", vec![whole(0., 0)])));
    assert_eq!(parse_expr("sin(3)"), Ok(call("sin", vec![whole(3., 3)])));

    // Binary function calls
    assert_eq!(parse_expr("log(1, 10)"), Ok(call("log", vec![whole(1., 1), whole(10., 10)])));
    assert_eq!(
        parse_expr("log(2.5, 10)"),
        Ok(call("log", vec![number(2.5, 25, -1), whole(10., 10)]))
    );
    assert_eq!(
        parse_expr("log(2.5, 2.5)"),
        Ok(call("log", vec![number(2.5, 25, -1), number(2.5, 25, -1)]))
    );

    // a fraction may have no digits, and a call may take a postfix operator
    assert_eq!(parse_expr("sin(-3.)"), Ok(call("sin", vec![preop(number(3., 3, 0))])));
    assert_eq!(
        parse_expr("log(1, 10) !"),
        Ok(proop(call("log", vec![whole(1., 1), whole(10., 10)])))
    );

    // Failing tests for calls
    assert!(parse_expr("log(1, )").is_err()); // Missing second argument with trailing comma
    assert!(parse_expr("log(, 10)").is_err()); // Missing first argument
    assert!(parse_expr("log(1, 10").is_err()); // Missing closing parenthesis
    assert!(parse_expr("log 1, 10)").is_err()); // Missing opening parenthesis
    assert!(parse_expr("log(1, 10))").is_err()); // Extra closing parenthesis
    assert!(parse_expr("log((1, 10)").is_err()); // Extra opening parenthesis
    assert!(parse_expr("log(1, (10)").is_err()); // Unmatched parentheses
    assert!(parse_expr("log(1, 10))").is_err()); // Extra closing parenthesis
    assert!(parse_expr("log(1, 10) +").is_err()); // Trailing operator
}

#[test]
fn parser_mathematical_notations() {
    assert_eq!(
        parse_expr("2 sin(3)"),
        Ok(binop(Mul, whole(2., 2), call("sin", vec![whole(3., 3)])))
    );
    assert_eq!(
        parse_expr("2 (5 + 2)"),
        Ok(binop(Mul, whole(2., 2), binop(Add, whole(5., 5), whole(2., 2))))
    );
    assert_eq!(
        parse_expr("3 (4 + 5) sin(6)"),
        Ok(binop(
            Mul,
            binop(Mul, whole(3., 3), binop(Add, whole(4., 4), whole(5., 5))),
            call("sin", vec![whole(6., 6)])
        ))
    );
    assert_eq!(
        parse_expr("2 (3 + 4) (5 + 6)"),
        Ok(binop(
            Mul,
            binop(Mul, whole(2., 2), binop(Add, whole(3., 3), whole(4., 4))),
            binop(Add, whole(5., 5), whole(6., 6))
        ))
    );
    assert_eq!(
        parse_expr("2 sin(3 + 4)"),
        Ok(binop(Mul, whole(2., 2), call("sin", vec![binop(Add, whole(3., 3), whole(4., 4))])))
    );
    assert_eq!(
        parse_expr("2 (3 + sin(4))"),
        Ok(binop(
            Mul,
            whole(2., 2),
            binop(Add, whole(3., 3), call("sin", vec![whole(4., 4)]))
        ))
    );
    assert_eq!(
        parse_expr("2 (3 + 4) 5"),
        Ok(binop(
            Mul,
            binop(Mul, whole(2., 2), binop(Add, whole(3., 3), whole(4., 4))),
            whole(5., 5)
        ))
    );

    // Failing tests
    assert!(parse_expr("2 (3 + 4").is_err());
    assert!(parse_expr("2 3 + 4)").is_err());
    assert!(parse_expr("2 (3 + sin(4)").is_err());
    assert!(parse_expr("2 (3 + 4))").is_err());
    assert!(parse_expr("2 (3 + (4)").is_err());
    assert!(parse_expr("2 (3 + 4))").is_err());
    assert!(parse_expr("2 (3 + 4) -").is_err());
    assert!(parse_expr("2 (3 + 4) - 5 %").is_err());
    assert!(parse_expr("2 (3 + 4) - 5 % 6)").is_err());
}

#[test]
fn parser_mixed_operations_and_number_notations() {
    // Mixed operations
    assert_eq!(
        parse_expr("sin(2 + 3) * 4"),
        Ok(binop(Mul, call("sin", vec![binop(Add, whole(2., 2), whole(3., 3))]), whole(4., 4)))
    );
    assert_eq!(
        parse_expr("2 * log(3 + 4, 10)"),
        Ok(binop(
            Mul,
            whole(2., 2),
            call("log", vec![binop(Add, whole(3., 3), whole(4., 4)), whole(10., 10)])
        ))
    );
    assert_eq!(
        parse_expr("2 * sin(3 + 4) - log(5, 6)"),
        Ok(binop(
            Sub,
            binop(Mul, whole(2., 2), call("sin", vec![binop(Add, whole(3., 3), whole(4., 4))])),
            call("log", vec![whole(5., 5), whole(6., 6)])
        ))
    );
    assert_eq!(
        parse_expr("2 * (3 + sin(4))"),
        Ok(binop(
            Mul,
            whole(2., 2),
            binop(Add, whole(3., 3), call("sin", vec![whole(4., 4)]))
        ))
    );

    // Combining scientific notation and function calls
    assert_eq!(
        parse_expr("sin(1e3) + 2.5"),
        Ok(binop(Add, call("sin", vec![number(1e3, 1, 3)]), number(2.5, 25, -1)))
    );
    assert_eq!(
        parse_expr("log(1e-3, 2.5) * 10"),
        Ok(binop(
            Mul,
            call("log", vec![number(1e-3, 1, -3), number(2.5, 25, -1)]),
            whole(10., 10)
        ))
    );
    assert_eq!(
        parse_expr("2 * sin(2.5e2) - log(1, 1e3)"),
        Ok(binop(
            Sub,
            binop(Mul, whole(2., 2), call("sin", vec![number(2.5e2, 25, 1)])),
            call("log", vec![whole(1., 1), number(1e3, 1, 3)])
        ))
    );
    assert_eq!(
        parse_expr("2 3 + sin(4)"),
        Ok(binop(
            Add,
            binop(Mul, whole(2., 2), whole(3., 3)),
            call("sin", vec![whole(4., 4)])
        ))
    );
    assert_eq!(
        parse_expr("sin(4) 2 + 3"),
        Ok(binop(
            Add,
            binop(Mul, call("sin", vec![whole(4., 4)]), whole(2., 2)),
            whole(3., 3)
        ))
    );

    // Failing tests for mixed operations

    // Missing closing parenthesis
    assert!(parse_expr("2 * (3 + sin(4)").is_err());

    // Extra comma in log function
    assert!(parse_expr("log(2, 3,) + sin(4)").is_err());

    // Invalid character in expression
    assert!(parse_expr("2 * (3 + sin(4) @)").is_err());

    // Unmatched parentheses
    assert!(parse_expr("2 * (3 + sin(4)) + (5").is_err());

    // Extra closing parenthesis
    assert!(parse_expr("2 * (3 + sin(4))) + 5").is_err());

    // Invalid number format
    assert!(parse_expr("2 * (3 + sin(4.5.6))").is_err());
}

#[test]
fn parser_variable_definition_test() {
    assert_eq!(
        parse_stmt("let x = 42"),
        Ok(Stmt::DefVar { name: "x".into(), expr: whole(42., 42) })
    );
    assert_eq!(
        parse_stmt("let y = 3.14"),
        Ok(Stmt::DefVar { name: "y".into(), expr: number(3.14, 314, -2) })
    );
    assert_eq!(
        parse_stmt("let z = x + y"),
        Ok(Stmt::DefVar { name: "z".into(), expr: binop(Add, var("x"), var("y")) })
    );

    // Failing tests
    assert!(parse_stmt("let = 42").is_err());
    assert!(parse_stmt("let x 42").is_err());
    assert!(parse_stmt("let x = ").is_err());
    assert!(parse_stmt("let 42 = x").is_err());
}

#[test]
fn parser_function_definition_test() {
    assert_eq!(
        parse_stmt("let add(a, b) = a + b"),
        Ok(Stmt::DefFun {
            name: "add".into(),
            arg_names: vec!["a".into(), "b".into()],
            body: binop(Add, var("a"), var("b")),
        })
    );
    assert_eq!(
        parse_stmt("let square(x) = x * x"),
        Ok(Stmt::DefFun {
            name: "square".into(),
            arg_names: vec!["x".into()],
            body: binop(Mul, var("x"), var("x")),
        })
    );
    assert_eq!(
        parse_stmt("let negate(x) = -x"),
        Ok(Stmt::DefFun {
            name: "negate".into(),
            arg_names: vec!["x".into()],
            body: preop(var("x")),
        })
    );

    // Failing tests
    assert!(parse_stmt("let add(a, b) = ").is_err());
    assert!(parse_stmt("let add(a, b = a + b").is_err());
    assert!(parse_stmt("let add(a b) = a + b").is_err());
    assert!(parse_stmt("let add(a, b) a + b").is_err());
}
