use seva::args::{AngleUnit, Config};
use seva::default_context::create_context;
use seva::display::Highlight;
use seva::display::Highlight::{Invalid, Keyword, Name, Number, Operator, Paren, Plain};
use seva::errors::{Domain, EvalError, ValueKind};
use seva::expression::Expr;
use seva::float::Float;
use seva::function::{Builtin, Function};
use seva::operators::{InfixOp, PostfixOp, PrefixOp};
use seva::order::{comes_before, sorted};
use seva::parser::{lex_and_parse, Expected, Label};
use seva::statement::Stmt;
use seva::token::{lex, Decimal, Token};
use seva::value::Value;

#[test]
fn operators_as_text() {
    assert_eq!(PrefixOp::Neg.symbol(), "-");
    assert_eq!(PostfixOp::Fac.symbol(), "!");
    let symbols: Vec<&str> = [
        InfixOp::Add,
        InfixOp::Sub,
        InfixOp::Mul,
        InfixOp::Div,
        InfixOp::Rem,
        InfixOp::Pow,
    ]
    .iter()
    .map(|op| op.symbol())
    .collect();
    assert_eq!(symbols, vec!["+", "-", "*", "/", "%", "^"]);
}

#[test]
fn tokens_as_text() {
    let texts: Vec<String> =
        lex("let f(x)=-2.5e3*_ @").iter().map(|(token, _)| token.to_text()).collect();
    assert_eq!(texts, vec![
        "let", " ", "f", "(", "x", ")", "=", "-", "25e2", "*", "_", " ", "unknown symbol"
    ]);
    assert_eq!(Token::Int(i64::MAX).to_text(), "9223372036854775807");
    assert_eq!(Token::Int(0).to_text(), "0");
    assert_eq!(Token::Int(10).to_text(), "10");
    assert_eq!(Token::Float(Decimal { mantissa: 0, exponent: i64::MIN }).to_text(),
        "0e-9223372036854775808");
    assert_eq!(Token::Float(Decimal { mantissa: u128::MAX, exponent: 7 }).to_text(),
        "340282366920938463463374607431768211455e7");
    let others: Vec<String> =
        lex("+/%^!,").iter().map(|(token, _)| token.to_text()).collect();
    assert_eq!(others, vec!["+", "/", "%", "^", "!", ","]);
}

#[test]
fn tokens_by_class() {
    let classes: Vec<Highlight> =
        lex("let f = sin(2.5) + 1! @ _,").iter().map(|(token, _)| token.highlight()).collect();
    assert_eq!(classes, vec![
        Keyword, Plain, Name, Plain, Operator, Plain, Name, Paren, Number, Paren, Plain, Operator,
        Plain, Number, Operator, Plain, Invalid, Plain, Plain, Plain
    ]);
}

#[test]
fn expressions_as_text() {
    let text = |line: &str| lex_and_parse(line).unwrap().to_text();
    assert_eq!(text("1 + 2 * 3"), "(1 + (2 * 3))");
    assert_eq!(text("-x!"), "(-(x!))");
    assert_eq!(text("2^3^2"), "(2 ^ (3 ^ 2))");
    assert_eq!(text("2 sin(x)"), "(2 * sin(x))");
    assert_eq!(text("f()"), "f()");
    assert_eq!(text("log(8, 2) % _"), "(log(8, 2) % _)");
    assert_eq!(text("f(1, g(2, 3), 4)"), "f(1, g(2, 3), 4)");
    assert_eq!(text("1.5 / 3"), "(15e-1 / 3)");
    assert_eq!(text("let x = 1 - 2"), "let x := (1 - 2)");
    assert_eq!(text("let f() = 1"), "let f() := 1");
    assert_eq!(text("let f(a) = a"), "let f(a) := a");
    assert_eq!(text("let add(a, b, c) = a + b"), "let add(a, b, c) := (a + b)");
    assert_eq!(Expr::Int(-5).to_text(), "-5");
    assert_eq!(Expr::Int(i64::MIN).to_text(), "-9223372036854775808");
    let mut out = String::from("= ");
    Expr::Variable(String::from("y")).write_to(&mut out);
    assert_eq!(out, "= y");
}

#[test]
fn copies_are_equal() {
    for line in ["1 + 2 * f(x, -y!, _) ^ 2.5", "let f(a, b) = a b", "let x = 3"] {
        let stmt = lex_and_parse(line).unwrap();
        assert_eq!(stmt.clone(), stmt);
        if let Stmt::Expr(expr) = &stmt {
            assert_eq!(&expr.duplicate(), expr);
            assert_eq!(&expr.clone(), expr);
        }
    }
    let f = Function::new_internal(vec![String::from("a")], Expr::Variable(String::from("a")));
    assert!(matches!(f.clone(), Function::Internal { arity: 1, .. }));
    let g = Function::new_external(Builtin::Log, AngleUnit::Degrees);
    assert!(matches!(g.clone(), Function::External { arity: 2, .. }));
    assert_eq!(Token::Ident(String::from("ab")).clone(), Token::Ident(String::from("ab")));
}

#[test]
fn errors_as_text() {
    assert_eq!(EvalError::DivisionByZero.message(), "division by zero");
    assert_eq!(EvalError::Overflow.message(), "overflow");
    assert_eq!(EvalError::NoHistory.message(), "no previous answer");
    assert_eq!(
        EvalError::MathDomain(Domain::NonNegativeInteger).message(),
        "domain error: the argument must be a non-negative integer"
    );
    assert_eq!(
        EvalError::MathDomain(Domain::UnitInterval).message(),
        "domain error: the domain is [-1, 1]"
    );
    assert_eq!(
        EvalError::MathDomain(Domain::NonNegative).message(),
        "domain error: the domain is [0, infinity)"
    );
    assert_eq!(
        EvalError::MathDomain(Domain::Positive).message(),
        "domain error: the domain is (0, infinity)"
    );
    assert_eq!(
        EvalError::MathDomain(Domain::Root).message(),
        "domain error: the domain is [0, infinity) x (R \\ {0})"
    );
    assert_eq!(
        EvalError::InvalidConversion(ValueKind::Null, ValueKind::Float).message(),
        "conversion from Null to Float is not supported"
    );
    assert_eq!(
        EvalError::TypeError(ValueKind::Integer, ValueKind::Rational).message(),
        "type error (expected: Integer, found: Rational)"
    );
    assert_eq!(
        EvalError::InvalidNumberOfArguments(2, 13).message(),
        "invalid number of arguments (expected: 2, found: 13)"
    );
    assert_eq!(
        EvalError::FunctionNotFound(String::from("f")).message(),
        "function not found: f"
    );
    assert_eq!(
        EvalError::VariableNotFound(String::from("abc")).message(),
        "variable not found: abc"
    );
    assert_eq!(
        EvalError::InvalidVariableDefinition(String::from("pi")).message(),
        "failed to define a variable: pi"
    );
}

#[test]
fn syntax_errors_as_text() {
    let message = |line: &str| lex_and_parse(line).unwrap_err()[0].message();
    assert_eq!(message("1 +"), "expected a term");
    assert_eq!(message("let 1"), "expected a name");
    assert_eq!(message("let f(a, ) = 1"), "expected a name");
    assert_eq!(message("(1"), "expected `)`");
    assert_eq!(message("let x 1"), "expected `=`");
    assert_eq!(message("1 )"), "expected the end of the input");
    assert_eq!(Expected::OpenParen.describe(), "expected `(`");
    assert_eq!(Expected::Let.describe(), "expected `let`");
    assert_eq!(Label::Expression.name(), "expression");
    assert_eq!(Label::FunctionCall.name(), "function call");
    assert_eq!(Label::FunctionDefinition.name(), "function definition");
    assert_eq!(Label::VariableDefinition.name(), "variable definition");
}

#[test]
fn values_as_text() {
    assert_eq!(Value::null().to_text(), Some(String::new()));
    assert_eq!(Value::from_integer(120).to_text(), Some(String::from("120")));
    assert_eq!(Value::from_integer(-7).to_text(), Some(String::from("-7")));
    assert_eq!(Value::rational(-6, 4).unwrap().to_text(), Some(String::from("-3/2")));
    assert_eq!(Value::rational(4, 2).unwrap().to_text(), Some(String::from("2")));
    assert_eq!(Value::rational(0, 7).unwrap().to_text(), Some(String::from("0")));
    assert_eq!(Value::rational(1, 3).unwrap().to_text(), Some(String::from("1/3")));
    assert_eq!(Value::from_float(Float { bits: 0 }).to_text(), None);
    assert_eq!(ValueKind::Null.name(), "Null");
    assert_eq!(ValueKind::Integer.name(), "Integer");
    assert_eq!(ValueKind::Rational.name(), "Rational");
    assert_eq!(ValueKind::Float.name(), "Float");
}

#[test]
fn names_of_a_context() {
    let mut context = create_context(&AngleUnit::Radian);
    assert_eq!(context.function_names(true), vec![
        "abs", "acos", "asin", "atan", "ceil", "cos", "cosh", "cot", "csc", "deg", "exp", "exp2",
        "floor", "ln", "log", "log10", "log2", "nroot", "rad", "round", "sec", "sin", "sinh",
        "sqrt", "tan", "tanh"
    ]);
    assert!(context.function_names(false).is_empty());
    assert_eq!(context.variable_names(true), vec!["e", "pi", "tau"]);
    assert!(context.variable_names(false).is_empty());
    context.set_function("twice", vec![String::from("x")], Expr::Variable(String::from("x")));
    context.set_function("sin", vec![String::from("x")], Expr::Variable(String::from("x")));
    context.set_variable("v", Value::from_integer(1));
    context.set_variable("v", Value::from_integer(2));
    context.set_variable("pi", Value::from_integer(3));
    context.set_function("Zeta", vec![], Expr::Int(0));
    context.set_function("alpha", vec![], Expr::Int(0));
    assert_eq!(context.function_names(false), vec!["Zeta", "alpha", "sin", "twice"]);
    assert_eq!(context.function_names(true).len(), 25);
    context.set_variable("b", Value::from_integer(1));
    context.set_variable("a", Value::from_integer(1));
    assert_eq!(context.variable_names(false), vec!["a", "b", "v"]);
    assert_eq!(context.variable_names(true), vec!["e", "pi", "tau"]);
    for builtin in [Builtin::Sin, Builtin::Nroot, Builtin::Log10] {
        let f = context.get_function(builtin.name());
        if builtin == Builtin::Sin {
            assert!(!f.unwrap().is_external());
        } else {
            assert!(f.unwrap().is_external());
            assert_eq!(f.unwrap().arity(), builtin.arity());
        }
    }
}

#[test]
fn names_in_order() {
    let words = ["pear", "apple", "", "fig", "apple", "figs", "Fig", "b", "a", "ab", "é", "z"];
    let names: Vec<String> = words.iter().map(|w| w.to_string()).collect();
    let mut expected = names.clone();
    expected.sort();
    assert_eq!(sorted(names), expected);
    assert_eq!(sorted(vec![]), Vec::<String>::new());
    for a in words {
        for b in words {
            assert_eq!(comes_before(a, b), a <= b, "{:?} {:?}", a, b);
        }
    }
}

#[test]
fn settings_by_default() {
    let config = Config::default();
    assert_eq!(config.fix, 10);
    assert_eq!(config.base, 10);
    assert_eq!(config.angle_unit, AngleUnit::Radian);
}
