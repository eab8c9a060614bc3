//! Laws of the language, each proved from the definitions that the
//! contracts of the functions are stated over.

use vstd::prelude::*;
use crate::args::AngleUnit;
use crate::builtin::{apply_builtin, apply_unary, outside};
use crate::context::{can_bind, find_variable, ContextView};
use crate::default_context::{default_context, default_variables};
use crate::errors::{Domain, EvalErrorView, HaltView};
use crate::eval::{call_function, eval_args, eval_expr, exec_stmt, frame};
use crate::expression::ExprView;
use crate::float::{lookup, Float, FloatOp};
use crate::function::{Builtin, FunctionView, Native};
use crate::number::{
    abs, exact_infix, factorial, factorial_of, fits, gcd, lemma_lowest_terms, power, Number,
};
use crate::operators::InfixOp;
use crate::value::{as_float, ask, infix};
use crate::parser::{
    infix_node, juxtaposed_rest, parse_atom, parse_expression, parse_function_definition,
    parse_juxtaposed, parse_postfixed, parse_power, parse_prefixed, parse_product,
    parse_statement, parse_sum, parse_to_end, parse_variable_definition, product_op,
    product_rest, starts_term, sum_op, sum_rest, FailureView,
};
use crate::statement::StmtView;
use crate::text::{digit_char, natural_text};
use crate::token::{
    extend_value, is_digit, lemma_run_end_bounds, lemma_token_at_advances, lex_from, lex_spec,
    number_at, token_at, ByteClass, Span, TokenView,
};

verus! {

/// A literal at position `p` parses as itself through every level up to
/// the power, provided neither `!` nor `^` follows it.
proof fn lemma_literal_power(ts: Seq<TokenView>, p: int, n: i64)
    requires
        0 <= p < ts.len(),
        ts[p] == TokenView::Int(n),
        p + 1 < ts.len() ==> !(ts[p + 1] is Exclamation) && !(ts[p + 1] is Caret),
    ensures
        parse_power(ts, p) == Ok::<(ExprView, int), FailureView>((ExprView::Int(n), p + 1)),
{
    assert(parse_atom(ts, p) == Ok::<(ExprView, int), FailureView>((ExprView::Int(n), p + 1)));
    assert(parse_postfixed(ts, p) == Ok::<(ExprView, int), FailureView>((ExprView::Int(n), p + 1)));
    assert(parse_prefixed(ts, p) == Ok::<(ExprView, int), FailureView>((ExprView::Int(n), p + 1)));
}

/// A literal at position `p` is a juxtaposition by itself, provided no
/// term, `!` or `^` follows it.
proof fn lemma_literal_term(ts: Seq<TokenView>, p: int, n: i64)
    requires
        0 <= p < ts.len(),
        ts[p] == TokenView::Int(n),
        p + 1 < ts.len() ==> !(ts[p + 1] is Exclamation) && !(ts[p + 1] is Caret) && !starts_term(
            ts[p + 1],
        ),
    ensures
        parse_juxtaposed(ts, p) == Ok::<(ExprView, int), FailureView>((ExprView::Int(n), p + 1)),
{
    lemma_literal_power(ts, p, n);
    assert(juxtaposed_rest(ts, p + 1, ExprView::Int(n)) == Ok::<(ExprView, int), FailureView>(
        (ExprView::Int(n), p + 1),
    ));
}

/// A sum that fills the input from its start is the whole statement.
proof fn lemma_statement_of_sum(ts: Seq<TokenView>, e: ExprView)
    requires
        ts.len() > 0,
        !(ts[0] is Let),
        parse_sum(ts, 0) == Ok::<(ExprView, int), FailureView>((e, ts.len() as int)),
    ensures
        parse_statement(ts) == Ok::<StmtView, FailureView>(StmtView::Expr(e)),
{
    assert(parse_expression(ts, 0) == Ok::<(ExprView, int), FailureView>((e, ts.len() as int)));
    assert(parse_to_end(ts, 0) == Ok::<ExprView, FailureView>(e));
    assert(parse_function_definition(ts) is Err);
    assert(parse_variable_definition(ts) is Err);
}

/// A product goes on over `*`, `/` or `%` and the juxtaposition after it.
proof fn lemma_product_goes_on(ts: Seq<TokenView>, p: int, lhs: ExprView, rhs: ExprView, q: int)
    requires
        0 <= p < q <= ts.len(),
        product_op(ts[p]) is Some,
        parse_juxtaposed(ts, p + 1) == Ok::<(ExprView, int), FailureView>((rhs, q)),
    ensures
        product_rest(ts, p, lhs) == product_rest(
            ts,
            q,
            infix_node(product_op(ts[p])->0, lhs, rhs),
        ),
{
}

/// A product ends before a token that is none of `*`, `/` and `%`.
proof fn lemma_product_ends(ts: Seq<TokenView>, p: int, lhs: ExprView)
    requires
        0 <= p <= ts.len(),
        p < ts.len() ==> product_op(ts[p]) is None,
    ensures
        product_rest(ts, p, lhs) == Ok::<(ExprView, int), FailureView>((lhs, p)),
{
}

/// A product starts with a juxtaposition.
proof fn lemma_product_starts(ts: Seq<TokenView>, p: int, lhs: ExprView, q: int)
    requires
        0 <= p < q <= ts.len(),
        parse_juxtaposed(ts, p) == Ok::<(ExprView, int), FailureView>((lhs, q)),
    ensures
        parse_product(ts, p) == product_rest(ts, q, lhs),
{
}

/// A sum goes on over `+` or `-` and the product after it.
proof fn lemma_sum_goes_on(ts: Seq<TokenView>, p: int, lhs: ExprView, rhs: ExprView, q: int)
    requires
        0 <= p < q <= ts.len(),
        sum_op(ts[p]) is Some,
        parse_product(ts, p + 1) == Ok::<(ExprView, int), FailureView>((rhs, q)),
    ensures
        sum_rest(ts, p, lhs) == sum_rest(ts, q, infix_node(sum_op(ts[p])->0, lhs, rhs)),
{
}

/// A sum ends before a token that is neither `+` nor `-`.
proof fn lemma_sum_ends(ts: Seq<TokenView>, p: int, lhs: ExprView)
    requires
        0 <= p <= ts.len(),
        p < ts.len() ==> sum_op(ts[p]) is None,
    ensures
        sum_rest(ts, p, lhs) == Ok::<(ExprView, int), FailureView>((lhs, p)),
{
}

/// A sum starts with a product.
proof fn lemma_sum_starts(ts: Seq<TokenView>, p: int, lhs: ExprView, q: int)
    requires
        0 <= p < q <= ts.len(),
        parse_product(ts, p) == Ok::<(ExprView, int), FailureView>((lhs, q)),
    ensures
        parse_sum(ts, p) == sum_rest(ts, q, lhs),
{
}

/// The tokens of a sum of a literal and a product of two literals.
proof fn lemma_sum_with_product(ts: Seq<TokenView>, a: i64, b: i64, c: i64)
    requires
        ts.len() == 5,
        ts[0] == TokenView::Int(a),
        ts[1] == TokenView::Plus,
        ts[2] == TokenView::Int(b),
        ts[3] == TokenView::Asterisk,
        ts[4] == TokenView::Int(c),
    ensures
        parse_statement(ts) == Ok::<StmtView, FailureView>(
            StmtView::Expr(
                infix_node(
                    InfixOp::Add,
                    ExprView::Int(a),
                    infix_node(InfixOp::Mul, ExprView::Int(b), ExprView::Int(c)),
                ),
            ),
        ),
{
    let bc = infix_node(InfixOp::Mul, ExprView::Int(b), ExprView::Int(c));
    let abc = infix_node(InfixOp::Add, ExprView::Int(a), bc);
    lemma_literal_term(ts, 0, a);
    lemma_literal_term(ts, 2, b);
    lemma_literal_term(ts, 4, c);
    // the product `b * c`
    lemma_product_ends(ts, 5, bc);
    lemma_product_goes_on(ts, 3, ExprView::Int(b), ExprView::Int(c), 5);
    lemma_product_starts(ts, 2, ExprView::Int(b), 3);
    // the summand `a`
    lemma_product_ends(ts, 1, ExprView::Int(a));
    lemma_product_starts(ts, 0, ExprView::Int(a), 1);
    // the sum
    lemma_sum_ends(ts, 5, abc);
    lemma_sum_goes_on(ts, 1, ExprView::Int(a), bc, 5);
    lemma_sum_starts(ts, 0, ExprView::Int(a), 1);
    lemma_statement_of_sum(ts, abc);
}

/// Multiplication binds tighter than addition: for all integer literals
/// `a`, `b` and `c`, the text `a + b * c` is the sum of `a` and the product
/// of `b` and `c`, and never the product of a sum.
pub proof fn law_product_binds_tighter_than_sum(a: i64, b: i64, c: i64)
    ensures
        parse_statement(
            seq![
                TokenView::Int(a),
                TokenView::Plus,
                TokenView::Int(b),
                TokenView::Asterisk,
                TokenView::Int(c),
            ],
        ) == Ok::<StmtView, FailureView>(
            StmtView::Expr(
                infix_node(
                    InfixOp::Add,
                    ExprView::Int(a),
                    infix_node(InfixOp::Mul, ExprView::Int(b), ExprView::Int(c)),
                ),
            ),
        ),
{
    lemma_sum_with_product(
        seq![
            TokenView::Int(a),
            TokenView::Plus,
            TokenView::Int(b),
            TokenView::Asterisk,
            TokenView::Int(c),
        ],
        a,
        b,
        c,
    );
}

/// The tokens of a power whose exponent is a power.
proof fn lemma_power_of_power(ts: Seq<TokenView>, a: i64, b: i64, c: i64)
    requires
        ts.len() == 5,
        ts[0] == TokenView::Int(a),
        ts[1] == TokenView::Caret,
        ts[2] == TokenView::Int(b),
        ts[3] == TokenView::Caret,
        ts[4] == TokenView::Int(c),
    ensures
        parse_statement(ts) == Ok::<StmtView, FailureView>(
            StmtView::Expr(
                infix_node(
                    InfixOp::Pow,
                    ExprView::Int(a),
                    infix_node(InfixOp::Pow, ExprView::Int(b), ExprView::Int(c)),
                ),
            ),
        ),
{
    let bc = infix_node(InfixOp::Pow, ExprView::Int(b), ExprView::Int(c));
    let abc = infix_node(InfixOp::Pow, ExprView::Int(a), bc);
    lemma_literal_power(ts, 4, c);
    lemma_literal_base(ts, 2, b, ExprView::Int(c), 5);
    lemma_literal_base(ts, 0, a, bc, 5);
    assert(parse_juxtaposed(ts, 0) == Ok::<(ExprView, int), FailureView>((abc, 5))) by {
        assert(juxtaposed_rest(ts, 5, abc) == Ok::<(ExprView, int), FailureView>((abc, 5)));
    }
    lemma_product_ends(ts, 5, abc);
    lemma_product_starts(ts, 0, abc, 5);
    lemma_sum_ends(ts, 5, abc);
    lemma_sum_starts(ts, 0, abc, 5);
    lemma_statement_of_sum(ts, abc);
}

/// The power associates to the right: for all integer literals `a`, `b`
/// and `c`, the text `a ^ b ^ c` is `a` to the power `b ^ c`.
pub proof fn law_power_associates_to_the_right(a: i64, b: i64, c: i64)
    ensures
        parse_statement(
            seq![
                TokenView::Int(a),
                TokenView::Caret,
                TokenView::Int(b),
                TokenView::Caret,
                TokenView::Int(c),
            ],
        ) == Ok::<StmtView, FailureView>(
            StmtView::Expr(
                infix_node(
                    InfixOp::Pow,
                    ExprView::Int(a),
                    infix_node(InfixOp::Pow, ExprView::Int(b), ExprView::Int(c)),
                ),
            ),
        ),
{
    lemma_power_of_power(
        seq![
            TokenView::Int(a),
            TokenView::Caret,
            TokenView::Int(b),
            TokenView::Caret,
            TokenView::Int(c),
        ],
        a,
        b,
        c,
    );
}

/// A literal before `^` is the base of the power that follows.
proof fn lemma_literal_base(ts: Seq<TokenView>, p: int, n: i64, exponent: ExprView, q: int)
    requires
        0 <= p,
        p + 1 < ts.len(),
        ts[p] == TokenView::Int(n),
        ts[p + 1] is Caret,
        parse_power(ts, p + 2) == Ok::<(ExprView, int), FailureView>((exponent, q)),
    ensures
        parse_power(ts, p) == Ok::<(ExprView, int), FailureView>(
            (infix_node(InfixOp::Pow, ExprView::Int(n), exponent), q),
        ),
{
    assert(parse_atom(ts, p) == Ok::<(ExprView, int), FailureView>((ExprView::Int(n), p + 1)));
    assert(parse_postfixed(ts, p) == Ok::<(ExprView, int), FailureView>((ExprView::Int(n), p + 1)));
    assert(parse_prefixed(ts, p) == Ok::<(ExprView, int), FailureView>((ExprView::Int(n), p + 1)));
}

/// The tokens of a difference of two literals.
proof fn lemma_difference(ts: Seq<TokenView>, a: i64, b: i64)
    requires
        ts.len() == 3,
        ts[0] == TokenView::Int(a),
        ts[1] == TokenView::Minus,
        ts[2] == TokenView::Int(b),
    ensures
        parse_statement(ts) == Ok::<StmtView, FailureView>(
            StmtView::Expr(infix_node(InfixOp::Sub, ExprView::Int(a), ExprView::Int(b))),
        ),
{
    let difference = infix_node(InfixOp::Sub, ExprView::Int(a), ExprView::Int(b));
    lemma_literal_term(ts, 0, a);
    lemma_literal_term(ts, 2, b);
    lemma_product_ends(ts, 1, ExprView::Int(a));
    lemma_product_starts(ts, 0, ExprView::Int(a), 1);
    lemma_product_ends(ts, 3, ExprView::Int(b));
    lemma_product_starts(ts, 2, ExprView::Int(b), 3);
    lemma_sum_ends(ts, 3, difference);
    lemma_sum_goes_on(ts, 1, ExprView::Int(a), ExprView::Int(b), 3);
    lemma_sum_starts(ts, 0, ExprView::Int(a), 1);
    lemma_statement_of_sum(ts, difference);
}

/// A `-` between two terms subtracts: for all integer literals `a` and
/// `b`, the text `a - b` is the difference of `a` and `b`.
pub proof fn law_minus_between_terms_subtracts(a: i64, b: i64)
    ensures
        parse_statement(seq![TokenView::Int(a), TokenView::Minus, TokenView::Int(b)]) == Ok::<
            StmtView,
            FailureView,
        >(StmtView::Expr(infix_node(InfixOp::Sub, ExprView::Int(a), ExprView::Int(b)))),
{
    lemma_difference(seq![TokenView::Int(a), TokenView::Minus, TokenView::Int(b)], a, b);
}

/// A literal in parentheses is the literal.
proof fn lemma_literal_in_parentheses(ts: Seq<TokenView>, p: int, n: i64)
    requires
        0 <= p,
        p + 3 <= ts.len(),
        ts[p] is LParen,
        ts[p + 1] == TokenView::Int(n),
        ts[p + 2] is RParen,
        p + 3 < ts.len() ==> !(ts[p + 3] is Exclamation) && !(ts[p + 3] is Caret),
    ensures
        parse_power(ts, p) == Ok::<(ExprView, int), FailureView>((ExprView::Int(n), p + 3)),
{
    let e = ExprView::Int(n);
    lemma_literal_term(ts, p + 1, n);
    lemma_product_ends(ts, p + 2, e);
    lemma_product_starts(ts, p + 1, e, p + 2);
    lemma_sum_ends(ts, p + 2, e);
    lemma_sum_starts(ts, p + 1, e, p + 2);
    assert(parse_expression(ts, p + 1) == Ok::<(ExprView, int), FailureView>((e, p + 2)));
    assert(parse_atom(ts, p) == Ok::<(ExprView, int), FailureView>((e, p + 3)));
    assert(parse_postfixed(ts, p) == Ok::<(ExprView, int), FailureView>((e, p + 3)));
    assert(parse_prefixed(ts, p) == Ok::<(ExprView, int), FailureView>((e, p + 3)));
}

/// The tokens of a literal and a literal in parentheses after it.
proof fn lemma_juxtaposition(ts: Seq<TokenView>, a: i64, b: i64)
    requires
        ts.len() == 4,
        ts[0] == TokenView::Int(a),
        ts[1] == TokenView::LParen,
        ts[2] == TokenView::Int(b),
        ts[3] == TokenView::RParen,
    ensures
        parse_statement(ts) == Ok::<StmtView, FailureView>(
            StmtView::Expr(infix_node(InfixOp::Mul, ExprView::Int(a), ExprView::Int(b))),
        ),
{
    let product = infix_node(InfixOp::Mul, ExprView::Int(a), ExprView::Int(b));
    lemma_literal_power(ts, 0, a);
    lemma_literal_in_parentheses(ts, 1, b);
    assert(parse_juxtaposed(ts, 0) == Ok::<(ExprView, int), FailureView>((product, 4))) by {
        assert(juxtaposed_rest(ts, 4, product) == Ok::<(ExprView, int), FailureView>(
            (product, 4),
        ));
        assert(juxtaposed_rest(ts, 1, ExprView::Int(a)) == Ok::<(ExprView, int), FailureView>(
            (product, 4),
        ));
    }
    lemma_product_ends(ts, 4, product);
    lemma_product_starts(ts, 0, product, 4);
    lemma_sum_ends(ts, 4, product);
    lemma_sum_starts(ts, 0, product, 4);
    lemma_statement_of_sum(ts, product);
}

/// A term in parentheses after a term multiplies: for all integer literals
/// `a` and `b`, the text `a (b)` is the product of `a` and `b`.
pub proof fn law_term_after_term_multiplies(a: i64, b: i64)
    ensures
        parse_statement(
            seq![TokenView::Int(a), TokenView::LParen, TokenView::Int(b), TokenView::RParen],
        ) == Ok::<StmtView, FailureView>(
            StmtView::Expr(infix_node(InfixOp::Mul, ExprView::Int(a), ExprView::Int(b))),
        ),
{
    lemma_juxtaposition(
        seq![TokenView::Int(a), TokenView::LParen, TokenView::Int(b), TokenView::RParen],
        a,
        b,
    );
}

/// The bytes of a text of ASCII characters.
pub open spec fn text_bytes(text: Seq<char>) -> Seq<u8> {
    text.map_values(|c: char| c as u8)
}

/// A numeral has as many digits as its number needs.
proof fn lemma_numeral_length(n: nat, k: nat)
    requires
        k >= 1,
        n < power(10, k),
    ensures
        1 <= natural_text(n).len() <= k,
    decreases k,
{
    if n >= 10 {
        assert(power(10, 1) == 10) by {
            reveal_with_fuel(power, 2);
        }
        assert(n / 10 < power(10, (k - 1) as nat)) by (nonlinear_arith)
            requires
                n < 10 * power(10, (k - 1) as nat),
                n >= 0,
        ;
        lemma_numeral_length(n / 10, (k - 1) as nat);
    }
}

/// A numeral is made of digits, starts with no zero but for zero itself,
/// and has the value of its number.
proof fn lemma_numeral(n: nat)
    ensures
        forall|i: int|
            0 <= i < natural_text(n).len() ==> is_digit(#[trigger] text_bytes(natural_text(n))[i]),
        n >= 1 ==> text_bytes(natural_text(n))[0] != 0x30,
        n == 0 ==> text_bytes(natural_text(n)) == seq![0x30u8],
        extend_value(0, text_bytes(natural_text(n))) == n,
    decreases n,
{
    let t = text_bytes(natural_text(n));
    if n < 10 {
        assert(t =~= seq![(0x30 + n) as u8]);
        assert(t.drop_last() =~= Seq::<u8>::empty());
        assert(extend_value(0, Seq::<u8>::empty()) == 0);
        assert(t.last() == 0x30 + n);
    } else {
        lemma_numeral(n / 10);
        let front = text_bytes(natural_text(n / 10));
        assert(t =~= front.push((0x30 + n % 10) as u8));
        assert(t.drop_last() =~= front);
        assert(t.last() == 0x30 + n % 10);
        assert(t[0] == front[0]);
    }
}

/// Writing and reading agree: the decimal numeral of a number that fits an
/// integer token is one token, the integer of that number, over the whole
/// numeral.
pub proof fn law_numeral_is_its_number(n: nat)
    requires
        n <= i64::MAX,
    ensures
        lex_spec(text_bytes(natural_text(n))) == seq![
            (TokenView::Int(n as i64), Span { start: 0, end: natural_text(n).len() as usize }),
        ],
{
    let t = text_bytes(natural_text(n));
    let len = t.len() as int;
    lemma_numeral(n);
    assert(1 <= len <= 19) by {
        assert(power(10, 19) == 10_000_000_000_000_000_000) by {
            reveal_with_fuel(power, 20);
        }
        lemma_numeral_length(n, 19);
    }
    lemma_run_end_bounds(t, 0, ByteClass::Digit);
    assert(t.subrange(0, len) =~= t);
    assert(number_at(t, 0) == (TokenView::Int(n as i64), len));
    assert(token_at(t, 0) == (TokenView::Int(n as i64), len));
    assert(lex_from(t, len) =~= Seq::empty());
    assert(lex_from(t, 0) =~= seq![
        (TokenView::Int(n as i64), Span { start: 0, end: len as usize }),
    ]);
}

/// The tokens tile the text: the first starts where the text starts, each
/// starts where the one before it ends, none is empty, and the last ends
/// where the text ends.
pub proof fn law_tokens_tile_the_text(s: Seq<u8>, pos: int)
    requires
        0 <= pos <= s.len() <= usize::MAX,
    ensures
        pos < s.len() ==> lex_from(s, pos).len() > 0 && lex_from(s, pos)[0].1.start == pos,
        pos == s.len() ==> lex_from(s, pos).len() == 0,
        forall|i: int|
            0 <= i < lex_from(s, pos).len() ==> (#[trigger] lex_from(s, pos)[i]).1.start
                < lex_from(s, pos)[i].1.end,
        forall|i: int|
            0 <= i < lex_from(s, pos).len() - 1 ==> (#[trigger] lex_from(s, pos)[i]).1.end
                == lex_from(s, pos)[i + 1].1.start,
        lex_from(s, pos).len() > 0 ==> lex_from(s, pos).last().1.end == s.len(),
    decreases s.len() - pos,
{
    if pos < s.len() {
        lemma_token_at_advances(s, pos);
        let (token, end) = token_at(s, pos);
        let head = (token, Span { start: pos as usize, end: end as usize });
        let rest = lex_from(s, end);
        let all = lex_from(s, pos);
        law_tokens_tile_the_text(s, end);
        assert(all == seq![head] + rest);
        assert(all[0] == head);
        assert forall|i: int| 0 <= i < all.len() implies (#[trigger] all[i]).1.start
            < all[i].1.end by {
            if i > 0 {
                assert(all[i] == rest[i - 1]);
            }
        }
        assert forall|i: int| 0 <= i < all.len() - 1 implies (#[trigger] all[i]).1.end == all[i
            + 1].1.start by {
            assert(all[i + 1] == rest[i]);
            if i > 0 {
                assert(all[i] == rest[i - 1]);
            }
        }
        if rest.len() > 0 {
            assert(all.last() == rest.last());
        }
    }
}

/// Recording a result changes the table for this operation alone, and for
/// it only where it had no result: what was recorded first stays.
pub proof fn law_first_result_stays(entries: Seq<(FloatOp, Float)>, op: FloatOp, result: Float, q: FloatOp)
    ensures
        lookup(entries.push((op, result)), q) == match lookup(entries, q) {
            Some(f) => Some(f),
            None => if q == op {
                Some(result)
            } else {
                None
            },
        },
    decreases entries.len(),
{
    let pushed = entries.push((op, result));
    if entries.len() == 0 {
        assert(pushed.skip(1) =~= Seq::<(FloatOp, Float)>::empty());
        assert(lookup(pushed.skip(1), q) is None);
    } else {
        assert(pushed[0] == entries[0]);
        assert(pushed.skip(1) =~= entries.skip(1).push((op, result)));
        law_first_result_stays(entries.skip(1), op, result, q);
    }
}

/// Division by zero is an error in every representation: whatever is
/// divided, a divisor that is zero, exact or `0.0` or `-0.0`, gives
/// `DivisionByZero`, for the quotient and for the remainder.
pub proof fn law_division_by_zero(op: InfixOp, a: Number, b: Number, floats: Seq<(FloatOp, Float)>)
    requires
        op is Div || op is Rem,
        !(a is Null),
        b.is_zero(),
    ensures
        infix(op, a, b, floats) == Err::<Number, HaltView>(
            HaltView::Error(EvalErrorView::DivisionByZero),
        ),
{
}

/// The quotient of two integers is exact: a fraction in lowest terms that,
/// multiplied by the divisor, gives back what was divided.
pub proof fn law_integer_division_is_exact(a: int, b: int)
    requires
        b != 0,
    ensures
        match exact_infix(InfixOp::Div, Number::Integer(a), Number::Integer(b)) {
            Ok(q) => q matches Number::Rational(n, d) && n * b == a * d && d > 0 && gcd(
                abs(n),
                d as nat,
            ) == 1,
            Err(e) => e is Overflow,
        },
{
    if b > 0 {
        lemma_lowest_terms(a, b);
    } else {
        lemma_lowest_terms(-a, -b);
        let n = crate::number::lowest_terms(-a, -b).0;
        let d = crate::number::lowest_terms(-a, -b).1;
        assert(n * b == a * d) by (nonlinear_arith)
            requires
                n * (-b) == (-a) * d,
        ;
    }
}

/// The factorial of a negative integer is outside the domain, and that of
/// an integer from zero on is the product of the integers up to it, where
/// that fits.  So `5!` is `120`.
pub proof fn law_factorial(i: int)
    ensures
        i < 0 ==> factorial_of(Number::Integer(i)) == Err::<Number, EvalErrorView>(
            EvalErrorView::MathDomain(Domain::NonNegativeInteger),
        ),
        i >= 0 && fits(factorial(i as nat) as int) ==> factorial_of(Number::Integer(i)) == Ok::<
            Number,
            EvalErrorView,
        >(Number::Integer(factorial(i as nat) as int)),
        factorial_of(Number::Integer(5)) == Ok::<Number, EvalErrorView>(Number::Integer(120)),
{
    assert(factorial(5) == 120) by {
        reveal_with_fuel(factorial, 6);
    }
}

/// A function rejects an argument outside its domain, whatever the unit of
/// angles: the square root a negative number, the arc sine a number outside
/// `[-1, 1]`, the logarithm a number that is not positive.
pub proof fn law_domains(unit: AngleUnit, a: Number, b: Number, floats: Seq<(FloatOp, Float)>)
    requires
        as_float(a, floats) is Ok,
    ensures
        !as_float(a, floats)->Ok_0.is_nonnegative() ==> apply_builtin(
            Native { builtin: Builtin::Sqrt, unit },
            seq![a],
            floats,
        ) == Err::<Number, HaltView>(outside(Domain::NonNegative)),
        !as_float(a, floats)->Ok_0.in_unit_interval() ==> apply_builtin(
            Native { builtin: Builtin::Asin, unit },
            seq![a],
            floats,
        ) == Err::<Number, HaltView>(outside(Domain::UnitInterval)),
        !as_float(a, floats)->Ok_0.is_positive() ==> apply_builtin(
            Native { builtin: Builtin::Log, unit },
            seq![a, b],
            floats,
        ) == Err::<Number, HaltView>(outside(Domain::Positive)),
{
}

/// A builtin constant cannot be bound again: a definition of a variable
/// whose name is a builtin constant of the innermost scope fails with
/// `InvalidVariableDefinition` wherever its expression has a value, and it
/// leaves the context as it was.
pub proof fn law_builtin_constants_are_protected(
    name: Seq<char>,
    expr: ExprView,
    ctx: ContextView,
    floats: Seq<(FloatOp, Float)>,
    depth: nat,
)
    requires
        ctx.scopes.len() >= 1,
        ctx.scopes.last().contains_key(name),
        ctx.scopes.last()[name] is External,
        eval_expr(expr, ctx, floats, depth) is Ok,
    ensures
        exec_stmt(crate::statement::StmtView::DefVar { name, expr }, ctx, floats, depth) == (
            Err::<Number, HaltView>(
                HaltView::Error(EvalErrorView::InvalidVariableDefinition(name)),
            ),
            ctx,
        ),
{
}

/// The names `e`, `pi` and `tau` are builtin constants of the context that
/// a session starts with, so none of them can be defined there.
pub proof fn law_default_constants(unit: AngleUnit)
    ensures
        !can_bind(default_context(unit).scopes, "e"@),
        !can_bind(default_context(unit).scopes, "pi"@),
        !can_bind(default_context(unit).scopes, "tau"@),
        default_context(unit).previous_answer is None,
{
    reveal_strlit("e");
    reveal_strlit("pi");
    reveal_strlit("tau");
    assert("e"@.len() == 1 && "pi"@.len() == 2 && "tau"@.len() == 3);
    assert(default_context(unit).scopes.last() == default_variables());
}

/// Evaluating an expression changes nothing but the previous answer:
/// parameters of the functions that it calls do not leak.  A name that
/// stood for no variable before stands for none afterwards.
pub proof fn law_scopes_are_restored(
    expr: ExprView,
    name: Seq<char>,
    ctx: ContextView,
    floats: Seq<(FloatOp, Float)>,
    depth: nat,
)
    ensures
        exec_stmt(crate::statement::StmtView::Expr(expr), ctx, floats, depth).1.scopes
            == ctx.scopes,
        exec_stmt(crate::statement::StmtView::Expr(expr), ctx, floats, depth).1.functions
            == ctx.functions,
        find_variable(ctx.scopes, name) is None ==> eval_expr(
            ExprView::Variable(name),
            exec_stmt(crate::statement::StmtView::Expr(expr), ctx, floats, depth).1,
            floats,
            depth,
        ) == Err::<Number, HaltView>(HaltView::Error(EvalErrorView::VariableNotFound(name))),
{
}

/// A statement that halts leaves the context as it was.
pub proof fn law_halt_changes_nothing(
    stmt: crate::statement::StmtView,
    ctx: ContextView,
    floats: Seq<(FloatOp, Float)>,
    depth: nat,
)
    requires
        exec_stmt(stmt, ctx, floats, depth).0 is Err,
    ensures
        exec_stmt(stmt, ctx, floats, depth).1 == ctx,
{
}

/// Before any expression has been evaluated `_` fails with `NoHistory`;
/// after an expression has given a value, `_` is that value.
pub proof fn law_previous_answer(
    expr: ExprView,
    ctx: ContextView,
    floats: Seq<(FloatOp, Float)>,
    depth: nat,
)
    ensures
        ctx.previous_answer is None ==> eval_expr(ExprView::PrevAnswer, ctx, floats, depth) == Err::<
            Number,
            HaltView,
        >(HaltView::Error(EvalErrorView::NoHistory)),
        eval_expr(expr, ctx, floats, depth) matches Ok(v) ==> eval_expr(
            ExprView::PrevAnswer,
            exec_stmt(crate::statement::StmtView::Expr(expr), ctx, floats, depth).1,
            floats,
            depth,
        ) == Ok::<Number, HaltView>(v),
{
}

/// A function called with another number of arguments than it has
/// parameters fails with `InvalidNumberOfArguments`, which names both
/// numbers; so a function of two parameters given one or three arguments.
pub proof fn law_number_of_arguments(
    f: FunctionView,
    values: Seq<Number>,
    ctx: ContextView,
    floats: Seq<(FloatOp, Float)>,
    depth: nat,
)
    requires
        f matches FunctionView::Internal { arity, .. } && values.len() != arity,
    ensures
        call_function(f, values, ctx, floats, depth) == Err::<Number, HaltView>(
            HaltView::Error(
                EvalErrorView::InvalidNumberOfArguments(f->Internal_arity, values.len() as usize),
            ),
        ),
{
}

/// Whether an outcome is the halt that waits for a floating-point result.
pub open spec fn waits<T>(r: Result<T, HaltView>) -> bool {
    r matches Err(HaltView::Pending(_))
}

/// After one more result has been recorded, every operation has the result
/// that it had, and the recorded one has a result.
proof fn lemma_table_grows(floats: Seq<(FloatOp, Float)>, entry: (FloatOp, Float))
    ensures
        forall|q: FloatOp|
            lookup(floats, q) is Some ==> #[trigger] lookup(floats.push(entry), q) == lookup(
                floats,
                q,
            ),
        forall|q: FloatOp| #![trigger ask(floats.push(entry), q)] !waits(ask(floats, q)) ==> ask(
            floats.push(entry), q) == ask(floats, q),
{
    assert forall|q: FloatOp| lookup(floats, q) is Some implies #[trigger] lookup(
        floats.push(entry),
        q,
    ) == lookup(floats, q) by {
        law_first_result_stays(floats, entry.0, entry.1, q);
    }
    assert forall|q: FloatOp| #![trigger ask(floats.push(entry), q)] !waits(ask(floats, q)) implies ask(
        floats.push(entry), q) == ask(floats, q) by {
        law_first_result_stays(floats, entry.0, entry.1, q);
    }
}

proof fn lemma_as_float_is_stable(a: Number, floats: Seq<(FloatOp, Float)>, entry: (FloatOp, Float))
    requires
        !waits(as_float(a, floats)),
    ensures
        as_float(a, floats.push(entry)) == as_float(a, floats),
{
    lemma_table_grows(floats, entry);
}

proof fn lemma_infix_is_stable(
    op: InfixOp,
    a: Number,
    b: Number,
    floats: Seq<(FloatOp, Float)>,
    entry: (FloatOp, Float),
)
    requires
        !waits(infix(op, a, b, floats)),
    ensures
        infix(op, a, b, floats.push(entry)) == infix(op, a, b, floats),
{
    lemma_table_grows(floats, entry);
    if !waits(as_float(a, floats)) {
        lemma_as_float_is_stable(a, floats, entry);
    }
    if !waits(as_float(b, floats)) {
        lemma_as_float_is_stable(b, floats, entry);
    }
}

proof fn lemma_unary_is_stable(
    native: Native,
    x: Float,
    floats: Seq<(FloatOp, Float)>,
    entry: (FloatOp, Float),
)
    requires
        !waits(apply_unary(native, x, floats)),
    ensures
        apply_unary(native, x, floats.push(entry)) == apply_unary(native, x, floats),
{
    lemma_table_grows(floats, entry);
}

proof fn lemma_builtin_is_stable(
    native: Native,
    args: Seq<Number>,
    floats: Seq<(FloatOp, Float)>,
    entry: (FloatOp, Float),
)
    requires
        !waits(apply_builtin(native, args, floats)),
    ensures
        apply_builtin(native, args, floats.push(entry)) == apply_builtin(native, args, floats),
{
    lemma_table_grows(floats, entry);
    if args.len() == native.builtin.spec_arity() {
        if !waits(as_float(args[0], floats)) {
            lemma_as_float_is_stable(args[0], floats, entry);
            if as_float(args[0], floats) is Ok {
                let x = as_float(args[0], floats)->Ok_0;
                if !waits(apply_unary(native, x, floats)) {
                    lemma_unary_is_stable(native, x, floats, entry);
                }
            }
        }
        if args.len() == 2 && !waits(as_float(args[1], floats)) {
            lemma_as_float_is_stable(args[1], floats, entry);
        }
    }
}

/// Recording one more floating-point result changes no evaluation that did
/// not wait for one.  So the value or the error that a statement ends with
/// does not depend on how far the table was filled beyond need.
pub proof fn law_finished_evaluation_stays(
    e: ExprView,
    ctx: ContextView,
    floats: Seq<(FloatOp, Float)>,
    entry: (FloatOp, Float),
    depth: nat,
)
    requires
        !waits(eval_expr(e, ctx, floats, depth)),
    ensures
        eval_expr(e, ctx, floats.push(entry), depth) == eval_expr(e, ctx, floats, depth),
    decreases depth, 1nat, e, 0nat,
{
    lemma_table_grows(floats, entry);
    match e {
        ExprView::InfixOp { op, lhs, rhs } => {
            law_finished_evaluation_stays(*lhs, ctx, floats, entry, depth);
            if eval_expr(*lhs, ctx, floats, depth) is Ok {
                law_finished_evaluation_stays(*rhs, ctx, floats, entry, depth);
                if eval_expr(*rhs, ctx, floats, depth) is Ok {
                    lemma_infix_is_stable(
                        op,
                        eval_expr(*lhs, ctx, floats, depth)->Ok_0,
                        eval_expr(*rhs, ctx, floats, depth)->Ok_0,
                        floats,
                        entry,
                    );
                }
            }
        },
        ExprView::PrefixOp { op, arg } => {
            law_finished_evaluation_stays(*arg, ctx, floats, entry, depth);
        },
        ExprView::PostfixOp { op, arg } => {
            law_finished_evaluation_stays(*arg, ctx, floats, entry, depth);
        },
        ExprView::FnCall { name, args } => {
            lemma_finished_arguments_stay(args, args.len(), ctx, floats, entry, depth);
            if eval_args(args, args.len(), ctx, floats, depth) is Ok && ctx.functions.contains_key(
                name,
            ) {
                lemma_finished_call_stays(
                    ctx.functions[name],
                    eval_args(args, args.len(), ctx, floats, depth)->Ok_0,
                    ctx,
                    floats,
                    entry,
                    depth,
                );
            }
        },
        _ => {},
    }
}

proof fn lemma_finished_arguments_stay(
    args: Seq<ExprView>,
    count: nat,
    ctx: ContextView,
    floats: Seq<(FloatOp, Float)>,
    entry: (FloatOp, Float),
    depth: nat,
)
    requires
        !waits(eval_args(args, count, ctx, floats, depth)),
    ensures
        eval_args(args, count, ctx, floats.push(entry), depth) == eval_args(
            args,
            count,
            ctx,
            floats,
            depth,
        ),
    decreases depth, 1nat, args, count,
{
    if !(count == 0 || count > args.len()) {
        lemma_finished_arguments_stay(args, (count - 1) as nat, ctx, floats, entry, depth);
        if eval_args(args, (count - 1) as nat, ctx, floats, depth) is Ok {
            law_finished_evaluation_stays(args[count - 1], ctx, floats, entry, depth);
        }
    }
}

proof fn lemma_finished_call_stays(
    f: FunctionView,
    values: Seq<Number>,
    ctx: ContextView,
    floats: Seq<(FloatOp, Float)>,
    entry: (FloatOp, Float),
    depth: nat,
)
    requires
        !waits(call_function(f, values, ctx, floats, depth)),
    ensures
        call_function(f, values, ctx, floats.push(entry), depth) == call_function(
            f,
            values,
            ctx,
            floats,
            depth,
        ),
    decreases depth, 0nat,
{
    match f {
        FunctionView::External { arity, body } => {
            if values.len() == arity {
                lemma_builtin_is_stable(body, values, floats, entry);
            }
        },
        FunctionView::Internal { arity, arg_names, body } => {
            if values.len() == arity && depth > 0 {
                law_finished_evaluation_stays(
                    body,
                    ContextView { scopes: ctx.scopes.push(frame(arg_names, values)), ..ctx },
                    floats,
                    entry,
                    (depth - 1) as nat,
                );
            }
        },
    }
}

/// An evaluation that did not reach the greatest depth allowed gives the
/// same with every greater depth.
pub proof fn law_deeper_is_the_same(
    e: ExprView,
    ctx: ContextView,
    floats: Seq<(FloatOp, Float)>,
    depth: nat,
)
    requires
        eval_expr(e, ctx, floats, depth) != Err::<Number, HaltView>(HaltView::DepthExceeded),
    ensures
        eval_expr(e, ctx, floats, depth + 1) == eval_expr(e, ctx, floats, depth),
    decreases depth, 1nat, e, 0nat,
{
    match e {
        ExprView::InfixOp { op, lhs, rhs } => {
            law_deeper_is_the_same(*lhs, ctx, floats, depth);
            if eval_expr(*lhs, ctx, floats, depth) is Ok {
                law_deeper_is_the_same(*rhs, ctx, floats, depth);
            }
        },
        ExprView::PrefixOp { op, arg } => {
            law_deeper_is_the_same(*arg, ctx, floats, depth);
        },
        ExprView::PostfixOp { op, arg } => {
            law_deeper_is_the_same(*arg, ctx, floats, depth);
        },
        ExprView::FnCall { name, args } => {
            lemma_deeper_arguments(args, args.len(), ctx, floats, depth);
            if eval_args(args, args.len(), ctx, floats, depth) is Ok && ctx.functions.contains_key(
                name,
            ) {
                lemma_deeper_call(
                    ctx.functions[name],
                    eval_args(args, args.len(), ctx, floats, depth)->Ok_0,
                    ctx,
                    floats,
                    depth,
                );
            }
        },
        _ => {},
    }
}

proof fn lemma_deeper_arguments(
    args: Seq<ExprView>,
    count: nat,
    ctx: ContextView,
    floats: Seq<(FloatOp, Float)>,
    depth: nat,
)
    requires
        eval_args(args, count, ctx, floats, depth) != Err::<Seq<Number>, HaltView>(
            HaltView::DepthExceeded,
        ),
    ensures
        eval_args(args, count, ctx, floats, depth + 1) == eval_args(args, count, ctx, floats, depth),
    decreases depth, 1nat, args, count,
{
    if !(count == 0 || count > args.len()) {
        lemma_deeper_arguments(args, (count - 1) as nat, ctx, floats, depth);
        if eval_args(args, (count - 1) as nat, ctx, floats, depth) is Ok {
            law_deeper_is_the_same(args[count - 1], ctx, floats, depth);
        }
    }
}

proof fn lemma_deeper_call(
    f: FunctionView,
    values: Seq<Number>,
    ctx: ContextView,
    floats: Seq<(FloatOp, Float)>,
    depth: nat,
)
    requires
        call_function(f, values, ctx, floats, depth) != Err::<Number, HaltView>(
            HaltView::DepthExceeded,
        ),
    ensures
        call_function(f, values, ctx, floats, depth + 1) == call_function(
            f,
            values,
            ctx,
            floats,
            depth,
        ),
    decreases depth, 0nat,
{
    match f {
        FunctionView::Internal { arity, arg_names, body } => {
            if values.len() == arity && depth > 0 {
                law_deeper_is_the_same(
                    body,
                    ContextView { scopes: ctx.scopes.push(frame(arg_names, values)), ..ctx },
                    floats,
                    (depth - 1) as nat,
                );
            }
        },
        _ => {},
    }
}

} // verus!
