//! Numbers as text.

use vstd::prelude::*;

verus! {

/// `String::push` appends the character to the end of the string.
pub assume_specification[ String::push ](s: &mut String, ch: char)
    ensures
        final(s)@ == old(s)@.push(ch),
;

/// The character of a decimal digit.
pub open spec fn digit_char(d: nat) -> char {
    ((0x30 + d) as u8) as char
}

/// A natural number in decimal digits, without leading zeros.
pub open spec fn natural_text(n: nat) -> Seq<char>
    decreases n,
{
    if n < 10 {
        seq![digit_char(n)]
    } else {
        natural_text(n / 10).push(digit_char(n % 10))
    }
}

/// An integer in decimal digits, with `-` before a negative one.
pub open spec fn integer_text(i: int) -> Seq<char> {
    if i < 0 {
        seq!['-'] + natural_text((-i) as nat)
    } else {
        natural_text(i as nat)
    }
}

/// Writes `n` in decimal digits at the end of `out`.
pub fn push_natural(out: &mut String, n: u128)
    ensures
        final(out)@ == old(out)@ + natural_text(n as nat),
    decreases n,
{
    if n >= 10 {
        push_natural(out, n / 10);
    }
    let d: u8 = (n % 10) as u8;
    out.push((0x30 + d) as char);
    proof {
        if n >= 10 {
            assert(final(out)@ =~= old(out)@ + natural_text((n / 10) as nat).push(
                digit_char((n % 10) as nat),
            ));
        } else {
            assert(final(out)@ =~= old(out)@ + seq![digit_char(n as nat)]);
        }
    }
}

/// Writes `i` in decimal digits at the end of `out`.
pub fn push_integer(out: &mut String, i: i128)
    requires
        i > i128::MIN,
    ensures
        final(out)@ == old(out)@ + integer_text(i as int),
{
    if i < 0 {
        out.push('-');
        let ghost signed = out@;
        push_natural(out, (-i) as u128);
        proof {
            assert(signed =~= old(out)@ + seq!['-']);
            assert(final(out)@ =~= old(out)@ + (seq!['-'] + natural_text((-i) as nat)));
        }
    } else {
        push_natural(out, i as u128);
    }
}

} // verus!
