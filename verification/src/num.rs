//! Decimal representation of integers: printing, character-level parsing,
//! and the proof that parsing undoes printing.

use vstd::prelude::*;
use vstd::arithmetic::div_mod::lemma_fundamental_div_mod;
use vstd::arithmetic::mul::lemma_mul_is_associative;
use crate::text::push_char;

verus! {

/// Whether `c` is a decimal digit.
pub open spec fn is_dec_digit(c: char) -> bool {
    ('0' as int) <= (c as int) <= ('9' as int)
}

/// The value of a digit character.
pub open spec fn digit_val(c: char) -> nat {
    ((c as int) - ('0' as int)) as nat
}

/// The digit character for a value below ten.
pub open spec fn digit_of(d: nat) -> char {
    if d == 0 {
        '0'
    } else if d == 1 {
        '1'
    } else if d == 2 {
        '2'
    } else if d == 3 {
        '3'
    } else if d == 4 {
        '4'
    } else if d == 5 {
        '5'
    } else if d == 6 {
        '6'
    } else if d == 7 {
        '7'
    } else if d == 8 {
        '8'
    } else {
        '9'
    }
}

/// The decimal digits of `n`, most significant first.
pub open spec fn dec_rep(n: nat) -> Seq<char>
    decreases n,
{
    if n < 10 {
        seq![digit_of(n)]
    } else {
        dec_rep(n / 10).push(digit_of(n % 10))
    }
}

/// The decimal form of a signed integer: a minus sign for a negative value,
/// then the digits of its magnitude.
pub open spec fn int_chars(i: int) -> Seq<char> {
    if i < 0 {
        seq!['-'] + dec_rep((-i) as nat)
    } else {
        dec_rep(i as nat)
    }
}

/// Greedy parse of a digit run from the front of `s`, folding the digits
/// onto the accumulator `acc`; stops at the first non-digit.
pub open spec fn parse_digits(s: Seq<char>, acc: nat) -> (nat, Seq<char>)
    decreases s.len(),
{
    if s.len() > 0 && is_dec_digit(s[0]) {
        parse_digits(s.drop_first(), acc * 10 + digit_val(s[0]))
    } else {
        (acc, s)
    }
}

/// Ten to the `k`.
pub open spec fn pow10(k: nat) -> nat
    decreases k,
{
    if k == 0 {
        1
    } else {
        10 * pow10((k - 1) as nat)
    }
}

/// A decimal representation is never empty and starts with a digit.
pub proof fn lemma_dec_rep_shape(n: nat)
    ensures
        dec_rep(n).len() >= 1,
        is_dec_digit(dec_rep(n)[0]),
        forall|k: int| 0 <= k < dec_rep(n).len() ==> is_dec_digit(#[trigger] dec_rep(n)[k]),
    decreases n,
{
    if n >= 10 {
        lemma_dec_rep_shape(n / 10);
        assert forall|k: int| 0 <= k < dec_rep(n).len() implies is_dec_digit(
            #[trigger] dec_rep(n)[k],
        ) by {
            if k < dec_rep(n / 10).len() {
                assert(dec_rep(n)[k] == dec_rep(n / 10)[k]);
            }
        }
    }
}

/// Parsing the printed digits of `n` folds exactly `n` onto the accumulator
/// and continues into whatever follows them.
pub proof fn lemma_parse_digits_dec_rep(n: nat, rest: Seq<char>, acc: nat)
    ensures
        parse_digits(dec_rep(n) + rest, acc) == parse_digits(
            rest,
            acc * pow10(dec_rep(n).len()) + n,
        ),
    decreases n,
{
    if n < 10 {
        let s = dec_rep(n) + rest;
        assert(s[0] == digit_of(n));
        assert(s.drop_first() =~= rest);
        assert(digit_val(digit_of(n)) == n);
        assert(pow10(0) == 1);
        assert(pow10(1) == 10);
    } else {
        let d = digit_of(n % 10);
        let head = dec_rep(n / 10);
        assert(dec_rep(n) + rest =~= head + (seq![d] + rest));
        lemma_parse_digits_dec_rep(n / 10, seq![d] + rest, acc);
        let acc1 = acc * pow10(head.len()) + n / 10;
        let s1 = seq![d] + rest;
        assert(s1[0] == d);
        assert(is_dec_digit(d));
        assert(s1.drop_first() =~= rest);
        assert(parse_digits(s1, acc1) == parse_digits(rest, acc1 * 10 + digit_val(d)));
        assert(digit_val(d) == n % 10);
        lemma_fundamental_div_mod(n as int, 10);
        let l = head.len();
        assert(dec_rep(n).len() == l + 1);
        assert(pow10(l + 1) == 10 * pow10(l));
        assert(acc1 * 10 + (n % 10) == acc * (pow10(l) * 10) + n) by (nonlinear_arith)
            requires
                acc1 == acc * pow10(l) + n / 10,
                n == 10 * (n / 10) + n % 10,
        ;
        assert(acc1 * 10 + digit_val(d) == acc * pow10(dec_rep(n).len()) + n);
    }
}

/// The numeric value of a digit character.
pub fn digit_val_char(c: char) -> (d: u32)
    requires
        is_dec_digit(c),
    ensures
        d as nat == digit_val(c),
        d < 10,
{
    match c {
        '0' => 0,
        '1' => 1,
        '2' => 2,
        '3' => 3,
        '4' => 4,
        '5' => 5,
        '6' => 6,
        '7' => 7,
        '8' => 8,
        _ => 9,
    }
}

/// The exec digit for a value below ten.
pub fn digit_char(d: u32) -> (c: char)
    requires
        d < 10,
    ensures
        c == digit_of(d as nat),
{
    match d {
        0 => '0',
        1 => '1',
        2 => '2',
        3 => '3',
        4 => '4',
        5 => '5',
        6 => '6',
        7 => '7',
        8 => '8',
        _ => '9',
    }
}

/// Appends the decimal digits of `n` to `out`.
pub fn push_dec(n: u32, out: &mut String)
    ensures
        final(out)@ == old(out)@ + dec_rep(n as nat),
    decreases n,
{
    if n < 10 {
        push_char(out, digit_char(n));
        assert(out@ =~= old(out)@ + dec_rep(n as nat));
    } else {
        push_dec(n / 10, out);
        push_char(out, digit_char(n % 10));
        assert(out@ =~= old(out)@ + dec_rep(n as nat));
    }
}

/// Appends the decimal form of `i`, minus sign included, to `out`.
pub fn push_int(i: i32, out: &mut String)
    ensures
        final(out)@ == old(out)@ + int_chars(i as int),
{
    if i < 0 {
        push_char(out, '-');
        let m: u32 = (-(i as i64)) as u32;
        assert(m as nat == (-(i as int)) as nat);
        push_dec(m, out);
        assert(out@ =~= old(out)@ + int_chars(i as int));
    } else {
        push_dec(i as u32, out);
    }
}

} // verus!
