//! Tokens and the lexer.
//!
//! The lexer works on the bytes of the input and always succeeds: the tokens
//! it returns tile the input from its first to its last byte, and whatever it
//! cannot recognise becomes an [`Token::Error`] token.

use vstd::prelude::*;
use vstd::string::StringSliceAdditionalSpecFns;

verus! {

/// A half-open range of byte offsets into the source text.
#[derive(Clone, Copy, Debug, PartialEq, Eq, Structural)]
pub struct Span {
    pub start: usize,
    pub end: usize,
}

/// A decimal literal `mantissa × 10^exponent`, exactly as it was written.
#[derive(Clone, Copy, Debug, PartialEq, Eq, Structural)]
pub struct Decimal {
    pub mantissa: u128,
    pub exponent: i64,
}

/// A token.
#[derive(Debug, PartialEq)]
pub enum Token {
    /// Input that is no token of the language.
    Error,
    /// A run of whitespace.
    Space,
    Int(i64),
    Float(Decimal),
    Let,
    Equal,
    Plus,
    Minus,
    Asterisk,
    Slash,
    Percent,
    Caret,
    Exclamation,
    LParen,
    RParen,
    Comma,
    Underscore,
    Ident(String),
}

/// The mathematical content of a [`Token`].
pub enum TokenView {
    Error,
    Space,
    Int(i64),
    Float(Decimal),
    Let,
    Equal,
    Plus,
    Minus,
    Asterisk,
    Slash,
    Percent,
    Caret,
    Exclamation,
    LParen,
    RParen,
    Comma,
    Underscore,
    Ident(Seq<char>),
}

impl View for Token {
    type V = TokenView;

    open spec fn view(&self) -> TokenView {
        match self {
            Token::Error => TokenView::Error,
            Token::Space => TokenView::Space,
            Token::Int(n) => TokenView::Int(*n),
            Token::Float(d) => TokenView::Float(*d),
            Token::Let => TokenView::Let,
            Token::Equal => TokenView::Equal,
            Token::Plus => TokenView::Plus,
            Token::Minus => TokenView::Minus,
            Token::Asterisk => TokenView::Asterisk,
            Token::Slash => TokenView::Slash,
            Token::Percent => TokenView::Percent,
            Token::Caret => TokenView::Caret,
            Token::Exclamation => TokenView::Exclamation,
            Token::LParen => TokenView::LParen,
            Token::RParen => TokenView::RParen,
            Token::Comma => TokenView::Comma,
            Token::Underscore => TokenView::Underscore,
            Token::Ident(s) => TokenView::Ident(s@),
        }
    }
}

impl Clone for Token {
    fn clone(&self) -> (copy: Self)
        ensures
            copy@ == self@,
    {
        match self {
            Token::Error => Token::Error,
            Token::Space => Token::Space,
            Token::Int(n) => Token::Int(*n),
            Token::Float(d) => Token::Float(*d),
            Token::Let => Token::Let,
            Token::Equal => Token::Equal,
            Token::Plus => Token::Plus,
            Token::Minus => Token::Minus,
            Token::Asterisk => Token::Asterisk,
            Token::Slash => Token::Slash,
            Token::Percent => Token::Percent,
            Token::Caret => Token::Caret,
            Token::Exclamation => Token::Exclamation,
            Token::LParen => Token::LParen,
            Token::RParen => Token::RParen,
            Token::Comma => Token::Comma,
            Token::Underscore => Token::Underscore,
            Token::Ident(s) => Token::Ident(s.clone()),
        }
    }
}

/// The views of a sequence of tokens with their spans.
pub open spec fn lexeme_views(tokens: Seq<(Token, Span)>) -> Seq<(TokenView, Span)> {
    tokens.map_values(|t: (Token, Span)| (t.0@, t.1))
}

/// Classes of bytes that the lexer scans runs of.
#[derive(Clone, Copy, Debug, PartialEq, Eq, Structural)]
pub enum ByteClass {
    Space,
    Digit,
    Alnum,
    /// Continuation bytes of a multi-byte UTF-8 character.
    Continuation,
}

/// Space, tab, line feed, vertical tab, form feed, carriage return.
pub open spec fn is_space(b: u8) -> bool {
    b == 0x20 || (0x09 <= b && b <= 0x0d)
}

/// A decimal digit.
pub open spec fn is_digit(b: u8) -> bool {
    0x30 <= b && b <= 0x39
}

/// A letter of the Latin alphabet.
pub open spec fn is_alpha(b: u8) -> bool {
    (0x41 <= b && b <= 0x5a) || (0x61 <= b && b <= 0x7a)
}

impl ByteClass {
    /// Whether the byte belongs to the class.
    pub open spec fn has(self, b: u8) -> bool {
        match self {
            ByteClass::Space => is_space(b),
            ByteClass::Digit => is_digit(b),
            ByteClass::Alnum => is_alpha(b) || is_digit(b),
            ByteClass::Continuation => 0x80 <= b && b < 0xc0,
        }
    }

    fn contains(self, b: u8) -> (r: bool)
        ensures
            r == self.has(b),
    {
        match self {
            ByteClass::Space => b == 0x20 || (0x09 <= b && b <= 0x0d),
            ByteClass::Digit => 0x30 <= b && b <= 0x39,
            ByteClass::Alnum => (0x41 <= b && b <= 0x5a) || (0x61 <= b && b <= 0x7a) || (0x30 <= b
                && b <= 0x39),
            ByteClass::Continuation => 0x80 <= b && b < 0xc0,
        }
    }
}

/// Where the longest run of `class` bytes that starts at `pos` ends.
pub open spec fn run_end(s: Seq<u8>, pos: int, class: ByteClass) -> int
    decreases s.len() - pos,
{
    if 0 <= pos < s.len() && class.has(s[pos]) {
        run_end(s, pos + 1, class)
    } else {
        pos
    }
}

/// The number that `acc` becomes when the decimal digits `digits` are written
/// after it.
pub open spec fn extend_value(acc: nat, digits: Seq<u8>) -> nat
    decreases digits.len(),
{
    if digits.len() == 0 {
        acc
    } else {
        (extend_value(acc, digits.drop_last()) * 10 + (digits.last() - 0x30)) as nat
    }
}

/// The bytes as characters, one for one.
pub open spec fn ascii_text(bytes: Seq<u8>) -> Seq<char> {
    bytes.map_values(|b: u8| b as char)
}

/// End of the integer part of a number that starts at `pos`: a lone `0`, or
/// a run of digits that does not start with `0`.
pub open spec fn int_end(s: Seq<u8>, pos: int) -> int {
    if s[pos] == 0x30 {
        pos + 1
    } else {
        run_end(s, pos, ByteClass::Digit)
    }
}

/// End of the fractional part that starts at `pos`, a `.` and the digits
/// after it; `pos` itself where there is no `.`.
pub open spec fn frac_end(s: Seq<u8>, pos: int) -> int {
    if 0 <= pos < s.len() && s[pos] == 0x2e {
        run_end(s, pos + 1, ByteClass::Digit)
    } else {
        pos
    }
}

/// Where the digits of an exponent that starts at `pos` begin: after `e` or
/// `E` and an optional sign.
pub open spec fn exp_digits_start(s: Seq<u8>, pos: int) -> int {
    if pos + 1 < s.len() && (s[pos + 1] == 0x2b || s[pos + 1] == 0x2d) {
        pos + 2
    } else {
        pos + 1
    }
}

/// Whether an exponent starts at `pos`: `e` or `E`, an optional sign, and at
/// least one digit.
pub open spec fn has_exp(s: Seq<u8>, pos: int) -> bool {
    &&& 0 <= pos < s.len()
    &&& (s[pos] == 0x65 || s[pos] == 0x45)
    &&& exp_digits_start(s, pos) < s.len()
    &&& is_digit(s[exp_digits_start(s, pos)])
}

/// End of the exponent that starts at `pos`; `pos` itself where there is none.
pub open spec fn exp_end(s: Seq<u8>, pos: int) -> int {
    if has_exp(s, pos) {
        run_end(s, exp_digits_start(s, pos), ByteClass::Digit)
    } else {
        pos
    }
}

/// The signed value of the exponent that starts at `pos`, 0 where there is
/// none.
pub open spec fn exp_value(s: Seq<u8>, pos: int) -> int {
    if has_exp(s, pos) {
        let d = exp_digits_start(s, pos);
        let v = extend_value(0, s.subrange(d, exp_end(s, pos)));
        if s[pos + 1] == 0x2d {
            -v
        } else {
            v as int
        }
    } else {
        0
    }
}

/// The numeric token that starts at the digit at `pos`, and where it ends.
///
/// Without fraction and exponent it is an integer, otherwise a float.  A
/// literal too large for its token is an error token over the same bytes.
pub open spec fn number_at(s: Seq<u8>, pos: int) -> (TokenView, int) {
    let i_end = int_end(s, pos);
    let f_end = frac_end(s, i_end);
    let e_end = exp_end(s, f_end);
    let whole = extend_value(0, s.subrange(pos, i_end));
    if e_end == i_end {
        if whole <= i64::MAX {
            (TokenView::Int(whole as i64), i_end)
        } else {
            (TokenView::Error, i_end)
        }
    } else {
        let frac_len = if f_end > i_end {
            f_end - i_end - 1
        } else {
            0
        };
        let mantissa = if f_end > i_end {
            extend_value(whole, s.subrange(i_end + 1, f_end))
        } else {
            whole
        };
        let exponent = exp_value(s, f_end) - frac_len;
        if mantissa <= u128::MAX && i64::MIN <= exponent <= i64::MAX {
            (TokenView::Float(Decimal { mantissa: mantissa as u128, exponent: exponent as i64 }), e_end)
        } else {
            (TokenView::Error, e_end)
        }
    }
}

/// The token of a byte that is a token by itself.
pub open spec fn punctuation(b: u8) -> TokenView {
    if b == 0x3d {
        TokenView::Equal
    } else if b == 0x2b {
        TokenView::Plus
    } else if b == 0x2d {
        TokenView::Minus
    } else if b == 0x2a {
        TokenView::Asterisk
    } else if b == 0x2f {
        TokenView::Slash
    } else if b == 0x25 {
        TokenView::Percent
    } else if b == 0x5e {
        TokenView::Caret
    } else if b == 0x21 {
        TokenView::Exclamation
    } else if b == 0x28 {
        TokenView::LParen
    } else if b == 0x29 {
        TokenView::RParen
    } else if b == 0x2c {
        TokenView::Comma
    } else if b == 0x5f {
        TokenView::Underscore
    } else {
        TokenView::Error
    }
}

/// The token that starts at `pos`, and where it ends.
pub open spec fn token_at(s: Seq<u8>, pos: int) -> (TokenView, int) {
    let b = s[pos];
    if is_space(b) {
        (TokenView::Space, run_end(s, pos, ByteClass::Space))
    } else if is_digit(b) {
        number_at(s, pos)
    } else if is_alpha(b) {
        let end = run_end(s, pos, ByteClass::Alnum);
        if end == pos + 3 && s[pos] == 0x6c && s[pos + 1] == 0x65 && s[pos + 2] == 0x74 {
            (TokenView::Let, end)
        } else {
            (TokenView::Ident(ascii_text(s.subrange(pos, end))), end)
        }
    } else if b >= 0x80 {
        // one whole character outside ASCII
        (TokenView::Error, run_end(s, pos + 1, ByteClass::Continuation))
    } else {
        (punctuation(b), pos + 1)
    }
}

/// The tokens of `s` from `pos` on, each with its span.
pub open spec fn lex_from(s: Seq<u8>, pos: int) -> Seq<(TokenView, Span)>
    decreases s.len() - pos,
{
    if 0 <= pos < s.len() {
        let (token, end) = token_at(s, pos);
        if pos < end <= s.len() {
            seq![(token, Span { start: pos as usize, end: end as usize })] + lex_from(s, end)
        } else {
            Seq::empty()
        }
    } else {
        Seq::empty()
    }
}

/// The tokens of the text whose bytes are `s`.
pub open spec fn lex_spec(s: Seq<u8>) -> Seq<(TokenView, Span)> {
    lex_from(s, 0)
}

/// A run never ends before it starts, nor after the input.
pub proof fn lemma_run_end_bounds(s: Seq<u8>, pos: int, class: ByteClass)
    requires
        0 <= pos <= s.len(),
    ensures
        pos <= run_end(s, pos, class) <= s.len(),
        forall|i: int| pos <= i < run_end(s, pos, class) ==> class.has(#[trigger] s[i]),
        run_end(s, pos, class) < s.len() ==> !class.has(s[run_end(s, pos, class)]),
    decreases s.len() - pos,
{
    if pos < s.len() && class.has(s[pos]) {
        lemma_run_end_bounds(s, pos + 1, class);
    }
}

/// Every token is at least one byte long and ends within the input, so the
/// guard in [`lex_from`] never cuts the token sequence short.
pub proof fn lemma_token_at_advances(s: Seq<u8>, pos: int)
    requires
        0 <= pos < s.len(),
    ensures
        pos < token_at(s, pos).1 <= s.len(),
{
    lemma_run_end_bounds(s, pos, ByteClass::Space);
    lemma_run_end_bounds(s, pos, ByteClass::Digit);
    lemma_run_end_bounds(s, pos, ByteClass::Alnum);
    lemma_run_end_bounds(s, pos + 1, ByteClass::Continuation);
    if is_digit(s[pos]) {
        let i_end = int_end(s, pos);
        let f_end = frac_end(s, i_end);
        if i_end < s.len() {
            lemma_run_end_bounds(s, i_end + 1, ByteClass::Digit);
        }
        if has_exp(s, f_end) {
            lemma_run_end_bounds(s, exp_digits_start(s, f_end), ByteClass::Digit);
        }
    }
}

/// Writing more digits never makes the number smaller.
pub proof fn lemma_extend_value_grows(acc: nat, digits: Seq<u8>, k: int)
    requires
        0 <= k <= digits.len(),
        forall|i: int| 0 <= i < digits.len() ==> is_digit(#[trigger] digits[i]),
    ensures
        extend_value(acc, digits.take(k)) <= extend_value(acc, digits),
    decreases digits.len() - k,
{
    if k < digits.len() {
        lemma_extend_value_grows(acc, digits, k + 1);
        assert(digits.take(k + 1).drop_last() =~= digits.take(k));
    } else {
        assert(digits.take(k) =~= digits);
    }
}

/// Scans the run of `class` bytes that starts at `pos`.
fn scan(bytes: &[u8], pos: usize, class: ByteClass) -> (end: usize)
    requires
        pos <= bytes@.len(),
    ensures
        end == run_end(bytes@, pos as int, class),
        pos <= end <= bytes@.len(),
{
    let mut i: usize = pos;
    while i < bytes.len() && class.contains(bytes[i])
        invariant
            pos <= i <= bytes@.len(),
            run_end(bytes@, pos as int, class) == run_end(bytes@, i as int, class),
        decreases bytes@.len() - i,
    {
        i = i + 1;
    }
    i
}

/// Writes the digits at `from..to` after `acc`; `None` where the number no
/// longer fits.
fn accumulate(bytes: &[u8], from: usize, to: usize, acc: u128) -> (r: Option<u128>)
    requires
        from <= to <= bytes@.len(),
        forall|i: int| from <= i < to ==> is_digit(#[trigger] bytes@[i]),
    ensures
        extend_value(acc as nat, bytes@.subrange(from as int, to as int)) <= u128::MAX ==> r
            == Some(extend_value(acc as nat, bytes@.subrange(from as int, to as int)) as u128),
        extend_value(acc as nat, bytes@.subrange(from as int, to as int)) > u128::MAX ==> r
            is None,
{
    let ghost digits = bytes@.subrange(from as int, to as int);
    let mut value: u128 = acc;
    let mut i: usize = from;
    proof {
        assert(digits.take(0) =~= Seq::<u8>::empty());
    }
    while i < to
        invariant
            from <= i <= to <= bytes@.len(),
            digits == bytes@.subrange(from as int, to as int),
            forall|j: int| from <= j < to ==> is_digit(#[trigger] bytes@[j]),
            forall|j: int| 0 <= j < digits.len() ==> is_digit(#[trigger] digits[j]),
            value == extend_value(acc as nat, digits.take(i - from)),
        decreases to - i,
    {
        let d: u128 = (bytes[i] - 0x30) as u128;
        proof {
            assert(digits.take(i - from + 1).drop_last() =~= digits.take(i - from));
            assert(digits.take(i - from + 1).last() == bytes@[i as int]);
            lemma_extend_value_grows(acc as nat, digits, i - from + 1);
        }
        if value > (u128::MAX - d) / 10 {
            return None;
        }
        value = value * 10 + d;
        i = i + 1;
    }
    proof {
        assert(digits.take(to - from) =~= digits);
    }
    Some(value)
}

/// The characters of the ASCII bytes at `from..to`.
fn text_of(bytes: &[u8], from: usize, to: usize) -> (text: String)
    requires
        from <= to <= bytes@.len(),
        forall|i: int| from <= i < to ==> #[trigger] bytes@[i] < 0x80,
    ensures
        text@ == ascii_text(bytes@.subrange(from as int, to as int)),
{
    let mut text = String::new();
    let mut i: usize = from;
    while i < to
        invariant
            from <= i <= to <= bytes@.len(),
            text@ == ascii_text(bytes@.subrange(from as int, i as int)),
        decreases to - i,
    {
        text.push(bytes[i] as char);
        proof {
            assert(ascii_text(bytes@.subrange(from as int, i + 1)) =~= ascii_text(
                bytes@.subrange(from as int, i as int),
            ).push(bytes@[i as int] as char));
        }
        i = i + 1;
    }
    text
}

/// Where the exponent that starts at `pos` has its digits and its end, and
/// whether its sign is `-`; `(pos, pos, false)` where there is none.
fn scan_exponent(bytes: &[u8], pos: usize) -> (r: (usize, usize, bool))
    requires
        pos <= bytes@.len(),
    ensures
        r.1 == exp_end(bytes@, pos as int),
        pos <= r.0 <= r.1 <= bytes@.len(),
        has_exp(bytes@, pos as int) ==> r.0 == exp_digits_start(bytes@, pos as int) && r.0 < r.1
            && r.2 == (bytes@[pos + 1] == 0x2d),
        !has_exp(bytes@, pos as int) ==> r.0 == pos && r.1 == pos,
        forall|i: int| r.0 <= i < r.1 ==> is_digit(#[trigger] bytes@[i]),
{
    if pos < bytes.len() && (bytes[pos] == 0x65 || bytes[pos] == 0x45) {
        let signed = pos + 1 < bytes.len() && (bytes[pos + 1] == 0x2b || bytes[pos + 1] == 0x2d);
        let d: usize = if signed {
            pos + 2
        } else {
            pos + 1
        };
        if d < bytes.len() && ByteClass::Digit.contains(bytes[d]) {
            let negative = bytes[pos + 1] == 0x2d;
            let end = scan(bytes, d, ByteClass::Digit);
            proof {
                lemma_run_end_bounds(bytes@, d as int, ByteClass::Digit);
            }
            return (d, end, negative);
        }
    }
    (pos, pos, false)
}

/// The float token with the given mantissa and exponent parts, or the error
/// token where one of them does not fit.
fn float_token(mantissa: Option<u128>, magnitude: Option<u128>, negative: bool, frac_len: usize) -> (r:
    Token)
    ensures
        r@ == match (mantissa, magnitude) {
            (Some(m), Some(e)) => {
                let exponent = (if negative {
                    -(e as int)
                } else {
                    e as int
                }) - frac_len;
                if i64::MIN <= exponent <= i64::MAX {
                    TokenView::Float(Decimal { mantissa: m, exponent: exponent as i64 })
                } else {
                    TokenView::Error
                }
            },
            _ => TokenView::Error,
        },
{
    match (mantissa, magnitude) {
        (Some(m), Some(e)) => {
            if e <= 0xffff_ffff_ffff_ffff_ffff {
                let signed: i128 = if negative {
                    -(e as i128)
                } else {
                    e as i128
                };
                let exponent: i128 = signed - frac_len as i128;
                if i64::MIN as i128 <= exponent && exponent <= i64::MAX as i128 {
                    Token::Float(Decimal { mantissa: m, exponent: exponent as i64 })
                } else {
                    Token::Error
                }
            } else {
                Token::Error
            }
        },
        _ => Token::Error,
    }
}

/// Lexes the number that starts at the digit at `pos`.
fn lex_number(bytes: &[u8], pos: usize) -> (r: (Token, usize))
    requires
        pos < bytes@.len(),
        is_digit(bytes@[pos as int]),
    ensures
        (r.0@, r.1 as int) == number_at(bytes@, pos as int),
        pos < r.1 <= bytes@.len(),
{
    let ghost s = bytes@;
    let i_end: usize = if bytes[pos] == 0x30 {
        pos + 1
    } else {
        scan(bytes, pos, ByteClass::Digit)
    };
    proof {
        lemma_run_end_bounds(s, pos as int, ByteClass::Digit);
    }
    assert(i_end == int_end(s, pos as int));
    let f_end: usize = if i_end < bytes.len() && bytes[i_end] == 0x2e {
        scan(bytes, i_end + 1, ByteClass::Digit)
    } else {
        i_end
    };
    proof {
        if f_end > i_end {
            lemma_run_end_bounds(s, i_end + 1, ByteClass::Digit);
        }
    }
    assert(f_end == frac_end(s, i_end as int));
    let (digits_start, e_end, negative) = scan_exponent(bytes, f_end);
    let whole = accumulate(bytes, pos, i_end, 0);
    let ghost whole_value = extend_value(0, s.subrange(pos as int, i_end as int));
    if e_end == i_end {
        return match whole {
            Some(v) => if v <= i64::MAX as u128 {
                (Token::Int(v as i64), i_end)
            } else {
                (Token::Error, i_end)
            },
            None => (Token::Error, i_end),
        };
    }
    let mantissa = match whole {
        Some(w) => if f_end > i_end {
            accumulate(bytes, i_end + 1, f_end, w)
        } else {
            Some(w)
        },
        None => {
            proof {
                if f_end > i_end {
                    let frac = s.subrange(i_end + 1, f_end as int);
                    lemma_extend_value_grows(whole_value, frac, 0);
                    assert(frac.take(0) =~= Seq::<u8>::empty());
                }
            }
            None
        },
    };
    let ghost mantissa_value = if f_end > i_end {
        extend_value(whole_value, s.subrange(i_end + 1, f_end as int))
    } else {
        whole_value
    };
    assert(mantissa_value <= u128::MAX ==> mantissa == Some(mantissa_value as u128));
    assert(mantissa_value > u128::MAX ==> mantissa is None);
    let magnitude = accumulate(bytes, digits_start, e_end, 0);
    let ghost magnitude_value = extend_value(0, s.subrange(digits_start as int, e_end as int));
    let frac_len: usize = if f_end > i_end {
        f_end - i_end - 1
    } else {
        0
    };
    proof {
        if !has_exp(s, f_end as int) {
            assert(s.subrange(digits_start as int, e_end as int) =~= Seq::<u8>::empty());
            assert(magnitude_value == 0);
        }
        assert(exp_value(s, f_end as int) == if negative {
            -(magnitude_value as int)
        } else {
            magnitude_value as int
        });
        // an exponent too large for its accumulator is too large for the token
        if magnitude_value > 0xffff_ffff_ffff_ffff_ffff {
            assert(exp_value(s, f_end as int) - frac_len > i64::MAX || exp_value(s, f_end as int)
                - frac_len < i64::MIN);
        }
    }
    (float_token(mantissa, magnitude, negative, frac_len), e_end)
}

/// Lexes the token that starts at `pos`.
fn lex_token(bytes: &[u8], pos: usize) -> (r: (Token, usize))
    requires
        pos < bytes@.len(),
    ensures
        (r.0@, r.1 as int) == token_at(bytes@, pos as int),
        pos < r.1 <= bytes@.len(),
{
    let b = bytes[pos];
    proof {
        lemma_token_at_advances(bytes@, pos as int);
    }
    if ByteClass::Space.contains(b) {
        (Token::Space, scan(bytes, pos, ByteClass::Space))
    } else if ByteClass::Digit.contains(b) {
        lex_number(bytes, pos)
    } else if ByteClass::Alnum.contains(b) {
        let end = scan(bytes, pos, ByteClass::Alnum);
        if end - pos == 3 && bytes[pos] == 0x6c && bytes[pos + 1] == 0x65 && bytes[pos + 2]
            == 0x74 {
            (Token::Let, end)
        } else {
            proof {
                lemma_run_end_bounds(bytes@, pos as int, ByteClass::Alnum);
            }
            (Token::Ident(text_of(bytes, pos, end)), end)
        }
    } else if b >= 0x80 {
        (Token::Error, scan(bytes, pos + 1, ByteClass::Continuation))
    } else {
        let token = if b == 0x3d {
            Token::Equal
        } else if b == 0x2b {
            Token::Plus
        } else if b == 0x2d {
            Token::Minus
        } else if b == 0x2a {
            Token::Asterisk
        } else if b == 0x2f {
            Token::Slash
        } else if b == 0x25 {
            Token::Percent
        } else if b == 0x5e {
            Token::Caret
        } else if b == 0x21 {
            Token::Exclamation
        } else if b == 0x28 {
            Token::LParen
        } else if b == 0x29 {
            Token::RParen
        } else if b == 0x2c {
            Token::Comma
        } else if b == 0x5f {
            Token::Underscore
        } else {
            Token::Error
        };
        (token, pos + 1)
    }
}

/// Splits `input` into tokens, whitespace included, each with its span.
///
/// The tokens cover the input without gaps, in order.
pub fn lex(input: &str) -> (tokens: Vec<(Token, Span)>)
    ensures
        lexeme_views(tokens@) == lex_spec(input.spec_bytes()),
{
    let bytes = input.as_bytes();
    let ghost s = bytes@;
    let mut tokens: Vec<(Token, Span)> = Vec::new();
    let mut pos: usize = 0;
    while pos < bytes.len()
        invariant
            pos <= bytes@.len(),
            s == bytes@,
            lexeme_views(tokens@) + lex_from(s, pos as int) == lex_spec(s),
        decreases bytes@.len() - pos,
    {
        let (token, end) = lex_token(bytes, pos);
        let ghost before = tokens@;
        let span = Span { start: pos, end };
        tokens.push((token, span));
        proof {
            let item = (token@, span);
            assert(lexeme_views(tokens@) =~= lexeme_views(before).push(item));
            assert(lex_from(s, pos as int) == seq![item] + lex_from(s, end as int));
            assert(lexeme_views(before).push(item) + lex_from(s, end as int) =~= lexeme_views(
                before,
            ) + (seq![item] + lex_from(s, end as int)));
        }
        pos = end;
    }
    proof {
        assert(lexeme_views(tokens@) + Seq::<(TokenView, Span)>::empty() =~= lexeme_views(
            tokens@,
        ));
    }
    tokens
}

} // verus!
