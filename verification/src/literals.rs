//! Facts about numerals: a number that is written reads back as itself.

use vstd::prelude::*;
use crate::grammar::{is_hex_literal, literal_number};
use crate::lexing::{
    gap, is_digits, lemma_lex_decimal, lemma_lex_digits, lemma_run_exact, number_ends, state_of,
};
use crate::grammar::advance;
use crate::text::occurs_at;
use crate::token::TokenKind;
use crate::numeral::fraction_units;
use crate::number::{Number, LIMIT, SCALE, WHOLE_LIMIT};
use crate::numeral::{
    digit_char, digit_count, digit_value, digits_from, digits_value, exact_text, has_digits,
    lemma_pow10, lemma_pow10_nine, numeral, numeral_units, padded_digits, pow10, short_text,
    sign_text, to_number, trimmed_fraction, trimmed_places, whole_text,
};
use crate::text::{char_at, in_class, run_end, CharClass};

verus! {



/// Dividing by ten and then by a power of ten is dividing by the next power.
proof fn lemma_div_ten(n: int, k: nat)
    requires
        n >= 0,
    ensures
        (n / 10) / pow10(k) == n / pow10(k + 1),
        ((n / 10) % pow10(k)) * 10 + n % 10 == n % pow10(k + 1),
{
    lemma_pow10(k);
    let p = pow10(k);
    assert(pow10(k + 1) == 10 * p);
    vstd::arithmetic::div_mod::lemma_div_denominator(n, 10, p);
    let a = n / 10;
    let b = n % 10;
    let c = a / p;
    let d = a % p;
    vstd::arithmetic::div_mod::lemma_fundamental_div_mod(n, 10);
    vstd::arithmetic::div_mod::lemma_fundamental_div_mod(a, p);
    assert(n == (10 * p) * c + (10 * d + b)) by (nonlinear_arith)
        requires
            n == 10 * a + b,
            a == p * c + d,
    ;
    assert(0 <= 10 * d + b < 10 * p) by {
        vstd::arithmetic::div_mod::lemma_mod_bound(a, p);
        vstd::arithmetic::div_mod::lemma_mod_bound(n, 10);
    }
    vstd::arithmetic::div_mod::lemma_fundamental_div_mod_converse(n, 10 * p, c, 10 * d + b);
}

/// The digits of a number are digits.
pub proof fn lemma_padded_are_digits(n: int, width: nat)
    ensures
        forall|i: int|
            0 <= i < width ==> in_class(CharClass::Digit, #[trigger] padded_digits(n, width)[i]),
        padded_digits(n, width).len() == width,
{
}

/// The digits of a number that are written stand for the number, as far as
/// they go.
pub proof fn lemma_digits_value_padded(n: int, width: nat)
    requires
        n >= 0,
    ensures
        digits_value(padded_digits(n, width)) == n % pow10(width),
    decreases width,
{
    let s = padded_digits(n, width);
    if width == 0 {
        assert(pow10(0) == 1);
    } else {
        let shorter = padded_digits(n / 10, (width - 1) as nat);
        assert(s.drop_last() =~= shorter) by {
            assert forall|i: int| 0 <= i < width - 1 implies s.drop_last()[i] == shorter[i] by {
                lemma_div_ten(n, (width - 2 - i) as nat);
            }
        }
        assert(pow10(0) == 1);
        assert(s.last() == digit_char(n % 10));
        assert(digit_value(digit_char(n % 10)) == n % 10);
        lemma_digits_value_padded(n / 10, (width - 1) as nat);
        lemma_div_ten(n, (width - 1) as nat);
    }
}

/// The count of the digits of a number below a power of ten is at most the
/// exponent, and the number is below the power of its count.
pub proof fn lemma_digits_from(n: int, count: nat, k: nat)
    requires
        0 <= n < pow10(k),
        count <= k <= 39,
    ensures
        count <= digits_from(n, count) <= k,
        n < pow10(digits_from(n, count)),
    decreases 39 - count,
{
    if count >= 39 || n < pow10(count) {
    } else {
        if count == k {
            assert(false);
        }
        lemma_digits_from(n, count + 1, k);
    }
}


/// Ten to the power of twenty-one is over the largest whole part.
proof fn lemma_pow10_21()
    ensures
        pow10(21) == 1_000_000_000_000_000_000_000,
{
    reveal_with_fuel(pow10, 22);
}

/// The text of a whole number up to the limit is made of digits, and its
/// digits stand for the number.
pub proof fn lemma_whole_text(w: int)
    requires
        0 <= w <= WHOLE_LIMIT,
    ensures
        is_digits(whole_text(w)),
        digits_value(whole_text(w)) == w,
        whole_text(w).len() == digit_count(w),
        1 <= digit_count(w) <= 21,
{
    lemma_pow10_21();
    lemma_digits_from(w, 1, 21);
    lemma_padded_are_digits(w, digit_count(w));
    lemma_digits_value_padded(w, digit_count(w));
    lemma_pow10(digit_count(w));
    vstd::arithmetic::div_mod::lemma_small_mod(w as nat, pow10(digit_count(w)) as nat);
}

/// Digits alone are read as the number that they stand for.
pub proof fn lemma_digits_read(digits: Seq<char>)
    requires
        is_digits(digits),
    ensures
        literal_number(digits) == crate::number::clamp_units(digits_value(digits) * SCALE),
{
    let shape = numeral(digits);
    lemma_run_exact(digits, 0, 0, CharClass::Blank);
    lemma_run_exact(digits, 0, digits.len() as int, CharClass::Digit);
    assert(shape.whole_start == 0);
    assert(shape.whole_end == digits.len());
    assert(shape.end == digits.len());
    assert(digits.subrange(0, digits.len() as int) =~= digits);
    assert(has_digits(shape));
    if digits.len() >= 2 {
        assert(in_class(CharClass::Digit, digits[1]));
    }
    assert(!is_hex_literal(digits));
}


/// A fraction of zeros is dropped altogether.
proof fn lemma_trimmed_zero(places: nat)
    ensures
        trimmed_places(0, places) == 0,
        trimmed_fraction(0, places) == 0,
    decreases places,
{
    if places > 0 {
        lemma_trimmed_zero((places - 1) as nat);
    }
}


/// Whether a number is finite, not negative and within the limit.
pub open spec fn is_plain(n: Number) -> bool {
    match n {
        Number::Finite(u) => 0 <= u <= LIMIT,
        _ => false,
    }
}

/// The units of a number.
pub open spec fn units_of(n: Number) -> int {
    match n {
        Number::Finite(u) => u as int,
        _ => 0,
    }
}

/// The digits of the whole part of a number.
pub open spec fn whole_digits(n: Number) -> Seq<char> {
    whole_text(units_of(n) / (SCALE as int))
}

/// The digits of the fraction of a number, without the zeros at the end.
pub open spec fn fraction_digits(n: Number) -> Seq<char> {
    padded_digits(
        trimmed_fraction(units_of(n) % (SCALE as int), 9),
        trimmed_places(units_of(n) % (SCALE as int), 9),
    )
}

/// A fraction without the zeros at its end is the fraction, in larger
/// steps; a fraction that is not zero keeps a place, and its last digit is
/// not zero.
pub proof fn lemma_trimmed(frac: int, places: nat)
    requires
        0 <= frac < pow10(places),
    ensures
        trimmed_places(frac, places) <= places,
        0 <= trimmed_fraction(frac, places) < pow10(trimmed_places(frac, places)),
        frac == trimmed_fraction(frac, places) * pow10(
            (places - trimmed_places(frac, places)) as nat,
        ),
        frac > 0 ==> trimmed_places(frac, places) > 0,
    decreases places,
{
    if places > 0 && frac % 10 == 0 {
        lemma_pow10((places - 1) as nat);
        let k = trimmed_places(frac / 10, (places - 1) as nat);
        assert(frac / 10 < pow10((places - 1) as nat)) by (nonlinear_arith)
            requires
                0 <= frac < 10 * pow10((places - 1) as nat),
        ;
        lemma_trimmed(frac / 10, (places - 1) as nat);
        lemma_pow10((places - 1 - k) as nat);
        let f = trimmed_fraction(frac / 10, (places - 1) as nat);
        let p = pow10((places - 1 - k) as nat);
        assert(frac == f * (10 * p)) by (nonlinear_arith)
            requires
                frac % 10 == 0,
                frac / 10 == f * p,
        ;
        assert(trimmed_places(frac, places) == k);
        assert(trimmed_fraction(frac, places) == f);
        assert(pow10((places - k) as nat) == 10 * p);
    } else {
        assert(pow10(0) == 1);
        assert(trimmed_places(frac, places) == places);
        assert(trimmed_fraction(frac, places) == frac);
        assert(frac == frac * 1) by (nonlinear_arith);
    }
}

/// One more digit at the end of a fraction adds its worth.
pub proof fn lemma_fraction_push(s: Seq<char>, c: char, j: nat)
    requires
        s.len() <= j,
    ensures
        fraction_units(s.push(c), pow10(j)) == fraction_units(s, pow10(j)) + digit_value(c)
            * pow10((j - s.len()) as nat),
    decreases s.len(),
{
    lemma_pow10(j);
    let longer = s.push(c);
    if s.len() == 0 {
        assert(longer.drop_first() =~= Seq::<char>::empty());
        assert(longer[0] == c);
        assert(fraction_units(longer.drop_first(), pow10(j) / 10) == 0);
        assert(fraction_units(longer, pow10(j)) == digit_value(c) * pow10(j) + 0);
        assert(fraction_units(s, pow10(j)) == 0);
    } else {
        lemma_pow10((j - 1) as nat);
        assert(longer.drop_first() =~= s.drop_first().push(c));
        assert(longer[0] == s[0]);
        assert(pow10(j) / 10 == pow10((j - 1) as nat));
        lemma_fraction_push(s.drop_first(), c, (j - 1) as nat);
        assert(fraction_units(longer, pow10(j)) == digit_value(s[0]) * pow10(j) + fraction_units(
            longer.drop_first(),
            pow10(j) / 10,
        ));
        assert(fraction_units(s, pow10(j)) == digit_value(s[0]) * pow10(j) + fraction_units(
            s.drop_first(),
            pow10(j) / 10,
        ));
    }
}

/// The worth of the digits of a fraction is the number that they write, in
/// the steps of the last digit.
pub proof fn lemma_fraction_units_digits(s: Seq<char>, j: nat)
    requires
        s.len() <= j + 1,
    ensures
        fraction_units(s, pow10(j)) == digits_value(s) * pow10((j + 1 - s.len()) as nat),
    decreases s.len(),
{
    lemma_pow10(j);
    if s.len() > 0 {
        let r = s.drop_last();
        let c = s.last();
        assert(r.push(c) =~= s);
        lemma_fraction_push(r, c, j);
        lemma_fraction_units_digits(r, j);
        lemma_pow10((j - r.len()) as nat);
        let p = pow10((j - r.len()) as nat);
        let a = digits_value(r);
        let d = digit_value(c);
        assert(a * (10 * p) + d * p == (a * 10 + d) * p) by (nonlinear_arith);
    }
}

/// How a number that is plain is written: the digits of its whole part,
/// and, if its fraction is not zero, a point and the digits of its fraction.
pub proof fn lemma_exact_text_parts(n: Number)
    requires
        is_plain(n),
    ensures
        units_of(n) % (SCALE as int) == 0 ==> exact_text(n) == whole_digits(n),
        units_of(n) % (SCALE as int) != 0 ==> exact_text(n) == whole_digits(n) + seq!['.']
            + fraction_digits(n),
        is_digits(whole_digits(n)),
        units_of(n) % (SCALE as int) != 0 ==> is_digits(fraction_digits(n)) && fraction_digits(
            n,
        ).len() <= 9,
        digits_value(whole_digits(n)) == units_of(n) / (SCALE as int),
        units_of(n) % (SCALE as int) != 0 ==> fraction_units(fraction_digits(n), SCALE / 10)
            == units_of(n) % (SCALE as int),
{
    let u = units_of(n);
    lemma_pow10_nine(9);
    lemma_pow10_nine(8);
    assert(pow10(9) == SCALE);
    let w = u / (SCALE as int);
    let frac = u % (SCALE as int);
    assert(0 <= w <= WHOLE_LIMIT) by (nonlinear_arith)
        requires
            0 <= u <= LIMIT,
            LIMIT == WHOLE_LIMIT * SCALE,
            w == u / (SCALE as int),
            SCALE > 0,
    ;
    lemma_whole_text(w);
    lemma_trimmed(frac, 9);
    let k = trimmed_places(frac, 9);
    let f = trimmed_fraction(frac, 9);
    if frac == 0 {
        lemma_trimmed_zero(9);
        assert(sign_text(false) + whole_text(w) + Seq::<char>::empty() =~= whole_text(w));
    } else {
        assert(sign_text(false) + whole_text(w) + (seq!['.'] + padded_digits(f, k)) =~= whole_text(
            w,
        ) + seq!['.'] + padded_digits(f, k));
        lemma_padded_are_digits(f, k);
        lemma_digits_value_padded(f, k);
        lemma_pow10(k);
        vstd::arithmetic::div_mod::lemma_small_mod(f as nat, pow10(k) as nat);
        lemma_fraction_units_digits(padded_digits(f, k), 8);
        reveal_with_fuel(pow10, 10);
        assert(pow10(8) == SCALE / 10);
    }
}

/// Digits, a point and digits are read as the number that they stand for.
pub proof fn lemma_decimal_read(whole: Seq<char>, fraction: Seq<char>)
    requires
        is_digits(whole),
        is_digits(fraction),
    ensures
        literal_number(whole + seq!['.'] + fraction) == crate::number::clamp_units(
            digits_value(whole) * SCALE + fraction_units(fraction, SCALE / 10),
        ),
{
    let text = whole + seq!['.'] + fraction;
    let point = whole.len() as int;
    let shape = numeral(text);
    assert forall|i: int| 0 <= i < point implies in_class(CharClass::Digit, #[trigger] text[i]) by {
        assert(text[i] == whole[i]);
    }
    assert forall|i: int| point + 1 <= i < text.len() implies in_class(
        CharClass::Digit,
        #[trigger] text[i],
    ) by {
        assert(text[i] == fraction[i - point - 1]);
    }
    assert(text[0] == whole[0]);
    assert(in_class(CharClass::Digit, whole[0]));
    lemma_run_exact(text, 0, 0, CharClass::Blank);
    lemma_run_exact(text, 0, point, CharClass::Digit);
    lemma_run_exact(text, point + 1, fraction.len() as int, CharClass::Digit);
    assert(shape.whole_start == 0);
    assert(shape.whole_end == point);
    assert(shape.end == text.len());
    assert(text.subrange(0, point) =~= whole);
    assert(text.subrange(point + 1, text.len() as int) =~= fraction);
    assert(has_digits(shape));
    if text.len() >= 2 {
        assert(text[1] == '.' || in_class(CharClass::Digit, text[1]));
    }
    assert(!is_hex_literal(text));
}

/// A number that is written reads back as itself: the number of the text of
/// a plain number is the number.
pub proof fn law_number_reads_back(n: Number)
    requires
        is_plain(n),
    ensures
        literal_number(exact_text(n)) == n,
        exact_text(n).len() > 0,
        in_class(CharClass::Digit, exact_text(n)[0]),
{
    lemma_exact_text_parts(n);
    let u = units_of(n);
    vstd::arithmetic::div_mod::lemma_fundamental_div_mod(u, SCALE as int);
    assert(in_class(CharClass::Digit, whole_digits(n)[0]));
    if u % (SCALE as int) == 0 {
        lemma_digits_read(whole_digits(n));
    } else {
        lemma_decimal_read(whole_digits(n), fraction_digits(n));
        assert(exact_text(n)[0] == whole_digits(n)[0]);
    }
}

/// Where the text of a plain number stands, and what follows is no part of
/// a number, the lexer reads it as a number.
pub proof fn lemma_lex_number(input: Seq<char>, pos: int, q: int, flag: bool, n: Number)
    requires
        gap(input, pos, q),
        is_plain(n),
        occurs_at(input, exact_text(n), q),
        number_ends(input, q + exact_text(n).len()),
    ensures
        advance(input, pos, flag) == state_of(
            TokenKind::Number,
            exact_text(n),
            q,
            q + exact_text(n).len(),
        ),
{
    lemma_exact_text_parts(n);
    if units_of(n) % (SCALE as int) == 0 {
        lemma_lex_digits(input, pos, q, flag, whole_digits(n));
    } else {
        lemma_lex_decimal(input, pos, q, flag, whole_digits(n), fraction_digits(n));
    }
}

} // verus!
