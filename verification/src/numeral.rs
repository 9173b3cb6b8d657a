//! Numbers as text: how a number is written, and how one is read.

use vstd::prelude::*;
use crate::number::{clamp_units, magnitude, norm, signed, Number, LIMIT, SCALE, WHOLE_LIMIT};
use crate::text::{char_at, chars_of, lemma_run_members, run_end, scan_run, CharClass};

verus! {

/// Ten to the power of `n`.
pub open spec fn pow10(n: nat) -> int
    decreases n,
{
    if n == 0 {
        1
    } else {
        10 * pow10((n - 1) as nat)
    }
}

/// The character that writes the digit `d`.
pub open spec fn digit_char(d: int) -> char {
    if d == 0 {
        '0'
    } else if d == 1 {
        '1'
    } else if d == 2 {
        '2'
    } else if d == 3 {
        '3'
    } else if d == 4 {
        '4'
    } else if d == 5 {
        '5'
    } else if d == 6 {
        '6'
    } else if d == 7 {
        '7'
    } else if d == 8 {
        '8'
    } else {
        '9'
    }
}

/// The digit that the character `c` writes.
pub open spec fn digit_value(c: char) -> int {
    if c == '1' {
        1
    } else if c == '2' {
        2
    } else if c == '3' {
        3
    } else if c == '4' {
        4
    } else if c == '5' {
        5
    } else if c == '6' {
        6
    } else if c == '7' {
        7
    } else if c == '8' {
        8
    } else if c == '9' {
        9
    } else {
        0
    }
}

/// The last `width` decimal digits of `n`, most significant first.
pub open spec fn padded_digits(n: int, width: nat) -> Seq<char> {
    Seq::new(width, |i: int| digit_char((n / pow10((width - 1 - i) as nat)) % 10))
}

/// The number of decimal digits of `n`, counted from `count` up: the least
/// number of digits, at least `count` and at most 39, that can write `n`.
pub open spec fn digits_from(n: int, count: nat) -> nat
    decreases 39 - count,
{
    if count >= 39 || n < pow10(count) {
        count
    } else {
        digits_from(n, count + 1)
    }
}

/// The number of decimal digits of `n`; zero has one.
pub open spec fn digit_count(n: int) -> nat {
    digits_from(n, 1)
}

/// The decimal digits of the natural number `n`, without leading zeros.
pub open spec fn whole_text(n: int) -> Seq<char> {
    padded_digits(n, digit_count(n))
}

/// The minus sign, if `negative`.
pub open spec fn sign_text(negative: bool) -> Seq<char> {
    if negative {
        seq!['-']
    } else {
        Seq::empty()
    }
}

/// The integer `i` in decimal.
pub open spec fn integer_text(i: int) -> Seq<char> {
    sign_text(i < 0) + whole_text(magnitude(i))
}

/// `m` units as a count of steps of `places` decimal places (at most nine),
/// rounded to the nearest count, and to the even one of two equally near.
pub open spec fn rounded_units(m: int, places: nat) -> int {
    let p = pow10((9 - places) as nat);
    let q = m / p;
    let r = m % p;
    if 2 * r > p || (2 * r == p && q % 2 == 1) {
        q + 1
    } else {
        q
    }
}

/// The number of decimal places that are left of `places` when the zeros at
/// the end of the fraction `frac` are dropped.
pub open spec fn trimmed_places(frac: int, places: nat) -> nat
    decreases places,
{
    if places > 0 && frac % 10 == 0 {
        trimmed_places(frac / 10, (places - 1) as nat)
    } else {
        places
    }
}

/// The fraction `frac` of `places` decimal places without the zeros at its
/// end.
pub open spec fn trimmed_fraction(frac: int, places: nat) -> int
    decreases places,
{
    if places > 0 && frac % 10 == 0 {
        trimmed_fraction(frac / 10, (places - 1) as nat)
    } else {
        frac
    }
}

/// `count` steps of `places` decimal places, written with all its places.
pub open spec fn plain_text(negative: bool, count: int, places: nat) -> Seq<char> {
    sign_text(negative) + whole_text(count / pow10(places)) + if places > 0 {
        seq!['.'] + padded_digits(count % pow10(places), places)
    } else {
        Seq::empty()
    }
}

/// `count` steps of `places` decimal places, written without the zeros at the
/// end of the fraction, and without the point if no fraction is left.
pub open spec fn short_text(negative: bool, count: int, places: nat) -> Seq<char> {
    let frac = count % pow10(places);
    let kept = trimmed_places(frac, places);
    sign_text(negative) + whole_text(count / pow10(places)) + if kept > 0 {
        seq!['.'] + padded_digits(trimmed_fraction(frac, places), kept)
    } else {
        Seq::empty()
    }
}

/// The number of decimal places with which a magnitude of `m` units is
/// printed: six for what is below one, else what six significant digits
/// leave after the whole part.
pub open spec fn display_places(m: int) -> nat {
    if m < SCALE {
        6
    } else {
        let d = digit_count(m / (SCALE as int));
        if d >= 6 {
            0
        } else {
            (6 - d) as nat
        }
    }
}

/// A number as `print` writes it: zero as `0`, another finite number with six
/// significant digits at most and no zeros at the end of its fraction, and
/// what is not finite as `inf`, `-inf` or `NaN`.
pub open spec fn display_text(a: Number) -> Seq<char> {
    match norm(a) {
        Number::Nan => "NaN"@,
        Number::PosInf => "inf"@,
        Number::NegInf => "-inf"@,
        Number::Finite(x) => if x == 0 {
            "0"@
        } else {
            short_text(
                x < 0,
                rounded_units(magnitude(x as int), display_places(magnitude(x as int))),
                display_places(magnitude(x as int)),
            )
        },
    }
}

/// A number with all the decimal places it holds, without the zeros at the
/// end of its fraction.
pub open spec fn exact_text(a: Number) -> Seq<char> {
    match norm(a) {
        Number::Nan => "NaN"@,
        Number::PosInf => "inf"@,
        Number::NegInf => "-inf"@,
        Number::Finite(x) => short_text(x < 0, magnitude(x as int), 9),
    }
}

/// `count` zeros.
pub open spec fn zeros(count: nat) -> Seq<char> {
    Seq::new(count, |i: int| '0')
}

/// A number with exactly `places` decimal places, rounded to the nearest.
pub open spec fn fixed_text(a: Number, places: nat) -> Seq<char> {
    match norm(a) {
        Number::Nan => "NaN"@,
        Number::PosInf => "inf"@,
        Number::NegInf => "-inf"@,
        Number::Finite(x) => if places <= 9 {
            plain_text(x < 0, rounded_units(magnitude(x as int), places), places)
        } else {
            plain_text(x < 0, magnitude(x as int), 9) + zeros((places - 9) as nat)
        },
    }
}

/// The value of the digits `s`, read as a decimal numeral.
pub open spec fn digits_value(s: Seq<char>) -> int
    decreases s.len(),
{
    if s.len() == 0 {
        0
    } else {
        digits_value(s.drop_last()) * 10 + digit_value(s.last())
    }
}

/// The value, in steps of which `weight` is worth the first digit, of the
/// digits `s` read as a decimal fraction; digits worth less than one step
/// are left out.
pub open spec fn fraction_units(s: Seq<char>, weight: int) -> int
    decreases s.len(),
{
    if s.len() == 0 || weight <= 0 {
        0
    } else {
        digit_value(s[0]) * weight + fraction_units(s.drop_first(), weight / 10)
    }
}

/// The numeral at the start of a text: where its parts lie.
pub struct Numeral {
    /// Whether a minus sign stands before the digits.
    pub negative: bool,
    /// The position of the first digit of the whole part.
    pub whole_start: int,
    /// The position after the last digit of the whole part.
    pub whole_end: int,
    /// The position after the last digit of the fraction; `whole_end` if
    /// there is no point.
    pub end: int,
}

/// The numeral at the start of `text`: blanks, an optional sign, digits, and
/// an optional point with digits after it.
pub open spec fn numeral(text: Seq<char>) -> Numeral {
    let sign_at = run_end(text, 0, CharClass::Blank);
    let negative = char_at(text, sign_at) == Some('-');
    let whole_at = if negative || char_at(text, sign_at) == Some('+') {
        sign_at + 1
    } else {
        sign_at
    };
    let point_at = run_end(text, whole_at, CharClass::Digit);
    let end_at = if char_at(text, point_at) == Some('.') {
        run_end(text, point_at + 1, CharClass::Digit)
    } else {
        point_at
    };
    Numeral { negative, whole_start: whole_at, whole_end: point_at, end: end_at }
}

/// Whether the numeral holds a digit.
pub open spec fn has_digits(n: Numeral) -> bool {
    n.whole_end > n.whole_start || n.end > n.whole_end + 1
}

/// The value of the numeral `n` of `text`, in units.
pub open spec fn numeral_units(text: Seq<char>, n: Numeral) -> int {
    signed(
        n.negative,
        digits_value(text.subrange(n.whole_start, n.whole_end)) * SCALE + if n.end > n.whole_end {
            fraction_units(text.subrange(n.whole_end + 1, n.end), SCALE / 10)
        } else {
            0
        },
    )
}

/// The number that `text` stands for where a number is wanted: the value of
/// the numeral at its start, and zero if it starts with none.
pub open spec fn to_number(text: Seq<char>) -> Number {
    let n = numeral(text);
    if has_digits(n) {
        clamp_units(numeral_units(text, n))
    } else {
        Number::Finite(0)
    }
}

/// Whether `text` as a whole is a numeral, but for blanks before and after.
pub open spec fn looks_numeric(text: Seq<char>) -> bool {
    let n = numeral(text);
    has_digits(n) && run_end(text, n.end, CharClass::Blank) >= text.len()
}

/// The value of `text`, if `text` as a whole is a numeral.
pub open spec fn numeric_value(text: Seq<char>) -> Option<Number> {
    if looks_numeric(text) {
        Some(to_number(text))
    } else {
        None
    }
}

/// The powers of ten are positive and grow.
pub proof fn lemma_pow10(n: nat)
    ensures
        pow10(n) >= 1,
        pow10(n + 1) == 10 * pow10(n),
        n >= 1 ==> pow10(n) / 10 == pow10((n - 1) as nat),
    decreases n,
{
    if n > 0 {
        lemma_pow10((n - 1) as nat);
    }
}

/// The powers of ten up to the thirty-eighth are below 10^38.
pub proof fn lemma_pow10_bound(n: nat)
    requires
        n <= 38,
    ensures
        1 <= pow10(n) <= 100_000_000_000_000_000_000_000_000_000_000_000_000,
    decreases 38 - n,
{
    lemma_pow10(n);
    if n < 38 {
        lemma_pow10_bound(n + 1);
    } else {
        reveal_with_fuel(pow10, 39);
    }
}

/// The powers of ten up to the ninth are at most a billion.
pub proof fn lemma_pow10_nine(n: nat)
    requires
        n <= 9,
    ensures
        1 <= pow10(n) <= 1_000_000_000,
        n == 9 ==> pow10(n) == 1_000_000_000,
{
    reveal_with_fuel(pow10, 10);
}

/// Ten to the power of `n`.
pub fn power_of_ten(n: usize) -> (r: i128)
    requires
        n <= 38,
    ensures
        r == pow10(n as nat),
        r >= 1,
{
    let mut r: i128 = 1;
    let mut i: usize = 0;
    while i < n
        invariant
            i <= n <= 38,
            r == pow10(i as nat),
        decreases n - i,
    {
        proof {
            lemma_pow10(i as nat);
            lemma_pow10_bound((i + 1) as nat);
        }
        r = r * 10;
        i += 1;
    }
    proof {
        lemma_pow10(n as nat);
    }
    r
}

/// The character that writes the digit `d`.
pub fn digit_to_char(d: i128) -> (c: char)
    requires
        0 <= d <= 9,
    ensures
        c == digit_char(d as int),
        '0' <= c <= '9',
        digit_value(c) == d,
{
    if d == 0 {
        '0'
    } else if d == 1 {
        '1'
    } else if d == 2 {
        '2'
    } else if d == 3 {
        '3'
    } else if d == 4 {
        '4'
    } else if d == 5 {
        '5'
    } else if d == 6 {
        '6'
    } else if d == 7 {
        '7'
    } else if d == 8 {
        '8'
    } else {
        '9'
    }
}

/// The digit that the character `c` writes.
pub fn char_to_digit(c: char) -> (d: i128)
    ensures
        d == digit_value(c),
        0 <= d <= 9,
{
    if c == '1' {
        1
    } else if c == '2' {
        2
    } else if c == '3' {
        3
    } else if c == '4' {
        4
    } else if c == '5' {
        5
    } else if c == '6' {
        6
    } else if c == '7' {
        7
    } else if c == '8' {
        8
    } else if c == '9' {
        9
    } else {
        0
    }
}

/// Appends the last `width` decimal digits of `n` to `out`.
pub fn push_padded(out: &mut Vec<char>, n: i128, width: usize)
    requires
        0 <= n,
        width <= 39,
    ensures
        final(out)@ == old(out)@ + padded_digits(n as int, width as nat),
{
    let ghost before = out@;
    let ghost digits = padded_digits(n as int, width as nat);
    let mut i: usize = 0;
    let mut p: i128 = if width == 0 {
        1
    } else {
        power_of_ten(width - 1)
    };
    while i < width
        invariant
            i <= width <= 39,
            0 <= n,
            digits == padded_digits(n as int, width as nat),
            out@ == before + digits.take(i as int),
            i < width ==> p == pow10((width - 1 - i) as nat),
        decreases width - i,
    {
        proof {
            lemma_pow10((width - 1 - i) as nat);
        }
        let d: i128 = (n / p) % 10;
        out.push(digit_to_char(d));
        proof {
            assert(digits.take(i + 1) == digits.take(i as int).push(digits[i as int]));
        }
        i += 1;
        if i < width {
            p = p / 10;
        }
    }
    assert(digits.take(width as int) == digits);
}

/// The number of decimal digits of `n`.
pub fn count_digits(n: i128) -> (count: usize)
    requires
        0 <= n,
    ensures
        count == digit_count(n as int),
        1 <= count <= 39,
{
    let mut count: usize = 1;
    while count < 39 && n >= power_of_ten(count)
        invariant
            1 <= count <= 39,
            digits_from(n as int, 1) == digits_from(n as int, count as nat),
        decreases 39 - count,
    {
        count += 1;
    }
    count
}

/// Appends the decimal digits of `n`, without leading zeros, to `out`.
pub fn push_whole(out: &mut Vec<char>, n: i128)
    requires
        0 <= n,
    ensures
        final(out)@ == old(out)@ + whole_text(n as int),
{
    let width = count_digits(n);
    push_padded(out, n, width);
}

/// The integer `i` in decimal.
pub fn integer_chars(i: i64) -> (out: Vec<char>)
    ensures
        out@ == integer_text(i as int),
{
    let mut out: Vec<char> = Vec::new();
    let wide: i128 = i as i128;
    if wide < 0 {
        out.push('-');
        push_whole(&mut out, -wide);
    } else {
        push_whole(&mut out, wide);
    }
    assert(sign_text(true) == seq!['-']);
    assert(out@ == sign_text(i < 0) + whole_text(magnitude(i as int)));
    out
}

/// `m` units as a count of steps of `places` decimal places, rounded.
fn round_units(m: i128, places: usize) -> (count: i128)
    requires
        0 <= m <= LIMIT,
        places <= 9,
    ensures
        count == rounded_units(m as int, places as nat),
        0 <= count <= m + 1,
{
    let p: i128 = power_of_ten(9 - places);
    proof {
        lemma_pow10_nine((9 - places) as nat);
    }
    let q: i128 = m / p;
    let r: i128 = m % p;
    assert(0 <= q <= m) by (nonlinear_arith)
        requires
            q == m / p,
            p >= 1,
            m >= 0,
    ;
    if 2 * r > p || (2 * r == p && q % 2 == 1) {
        q + 1
    } else {
        q
    }
}

/// Appends `count` steps of `places` decimal places to `out`, in full or
/// without the zeros at the end of the fraction.
fn push_decimal(out: &mut Vec<char>, negative: bool, count: i128, places: usize, trim: bool)
    requires
        0 <= count,
        places <= 9,
    ensures
        final(out)@ == old(out)@ + if trim {
            short_text(negative, count as int, places as nat)
        } else {
            plain_text(negative, count as int, places as nat)
        },
{
    let ghost before = out@;
    if negative {
        out.push('-');
    }
    assert(out@ == before + sign_text(negative));
    let p: i128 = power_of_ten(places);
    let whole: i128 = count / p;
    let frac: i128 = count % p;
    push_whole(out, whole);
    let mut kept: usize = places;
    let mut digits: i128 = frac;
    if trim {
        while kept > 0 && digits % 10 == 0
            invariant
                0 <= digits,
                kept <= places,
                trimmed_places(frac as int, places as nat) == trimmed_places(
                    digits as int,
                    kept as nat,
                ),
                trimmed_fraction(frac as int, places as nat) == trimmed_fraction(
                    digits as int,
                    kept as nat,
                ),
            decreases kept,
        {
            digits = digits / 10;
            kept -= 1;
        }
    }
    if kept > 0 {
        out.push('.');
        let ghost mid = out@;
        push_padded(out, digits, kept);
        assert(out@ == before + sign_text(negative) + whole_text(whole as int) + (seq!['.']
            + padded_digits(digits as int, kept as nat)));
    } else {
        assert(out@ == before + sign_text(negative) + whole_text(whole as int)
            + Seq::<char>::empty());
    }
    assert(before + sign_text(negative) + whole_text(whole as int) + (seq!['.'] + padded_digits(
        digits as int,
        kept as nat,
    )) == before + (sign_text(negative) + whole_text(whole as int) + (seq!['.'] + padded_digits(
        digits as int,
        kept as nat,
    ))));
    assert(before + sign_text(negative) + whole_text(whole as int) + Seq::<char>::empty() == before
        + (sign_text(negative) + whole_text(whole as int) + Seq::<char>::empty()));
}

/// The number of decimal places with which a magnitude of `m` units is
/// printed.
fn places_to_display(m: i128) -> (places: usize)
    requires
        0 <= m,
    ensures
        places == display_places(m as int),
        places <= 6,
{
    if m < SCALE {
        6
    } else {
        let d = count_digits(m / SCALE);
        if d >= 6 {
            0
        } else {
            6 - d
        }
    }
}

/// The text of what is not finite, if `a` is not finite.
fn special_chars(a: Number) -> (out: Option<Vec<char>>)
    ensures
        match norm(a) {
            Number::Nan => out.is_some() && out.unwrap()@ == "NaN"@,
            Number::PosInf => out.is_some() && out.unwrap()@ == "inf"@,
            Number::NegInf => out.is_some() && out.unwrap()@ == "-inf"@,
            Number::Finite(_) => out.is_none(),
        },
{
    match a.normalized() {
        Number::Nan => Some(chars_of("NaN")),
        Number::PosInf => Some(chars_of("inf")),
        Number::NegInf => Some(chars_of("-inf")),
        Number::Finite(_) => None,
    }
}

/// The magnitude of a finite number within the limit, in units.
fn units_magnitude(x: i128) -> (m: i128)
    requires
        -LIMIT <= x <= LIMIT,
    ensures
        m == magnitude(x as int),
        0 <= m <= LIMIT,
{
    if x < 0 {
        -x
    } else {
        x
    }
}

impl Number {
    /// This number as `print` writes it.
    pub fn display_chars(self) -> (out: Vec<char>)
        ensures
            out@ == display_text(self),
    {
        match special_chars(self) {
            Some(out) => out,
            None => {
                match self.normalized() {
                    Number::Finite(x) => {
                        if x == 0 {
                            chars_of("0")
                        } else {
                            let m = units_magnitude(x);
                            let places = places_to_display(m);
                            let count = round_units(m, places);
                            let mut out: Vec<char> = Vec::new();
                            push_decimal(&mut out, x < 0, count, places, true);
                            assert(Seq::<char>::empty() + short_text(
                                x < 0,
                                count as int,
                                places as nat,
                            ) == short_text(x < 0, count as int, places as nat));
                            out
                        }
                    },
                    _ => Vec::new(),
                }
            },
        }
    }

    /// This number with all the decimal places it holds.
    pub fn exact_chars(self) -> (out: Vec<char>)
        ensures
            out@ == exact_text(self),
    {
        match special_chars(self) {
            Some(out) => out,
            None => {
                match self.normalized() {
                    Number::Finite(x) => {
                        let m = units_magnitude(x);
                        let mut out: Vec<char> = Vec::new();
                        push_decimal(&mut out, x < 0, m, 9, true);
                        assert(Seq::<char>::empty() + short_text(x < 0, m as int, 9) == short_text(
                            x < 0,
                            m as int,
                            9,
                        ));
                        out
                    },
                    _ => Vec::new(),
                }
            },
        }
    }

    /// This number with exactly `places` decimal places.
    pub fn fixed_chars(self, places: usize) -> (out: Vec<char>)
        ensures
            out@ == fixed_text(self, places as nat),
    {
        match special_chars(self) {
            Some(out) => out,
            None => {
                match self.normalized() {
                    Number::Finite(x) => {
                        let m = units_magnitude(x);
                        let mut out: Vec<char> = Vec::new();
                        if places <= 9 {
                            let count = round_units(m, places);
                            push_decimal(&mut out, x < 0, count, places, false);
                            assert(Seq::<char>::empty() + plain_text(
                                x < 0,
                                count as int,
                                places as nat,
                            ) == plain_text(x < 0, count as int, places as nat));
                        } else {
                            push_decimal(&mut out, x < 0, m, 9, false);
                            assert(Seq::<char>::empty() + plain_text(x < 0, m as int, 9)
                                == plain_text(x < 0, m as int, 9));
                            let ghost head = out@;
                            let mut i: usize = 9;
                            while i < places
                                invariant
                                    9 <= i <= places,
                                    out@ == head + zeros((i - 9) as nat),
                                decreases places - i,
                            {
                                out.push('0');
                                assert(zeros((i + 1 - 9) as nat) == zeros((i - 9) as nat).push(
                                    '0',
                                ));
                                i += 1;
                            }
                        }
                        out
                    },
                    _ => Vec::new(),
                }
            },
        }
    }

    /// The number that `text` stands for where a number is wanted.
    pub fn from_chars(text: &Vec<char>) -> (r: Number)
        ensures
            r == to_number(text@),
    {
        let (r, _) = read_numeral(text);
        r
    }

    /// The value of `text`, if `text` as a whole is a numeral.
    pub fn parse_chars(text: &Vec<char>) -> (r: Option<Number>)
        ensures
            r == numeric_value(text@),
    {
        let (r, whole) = read_numeral(text);
        if whole {
            Some(r)
        } else {
            None
        }
    }
}

/// The digits of a numeral are digits, so their value is not negative, and
/// one more digit makes it no smaller.
proof fn lemma_digits_value(s: Seq<char>)
    requires
        forall|k: int| 0 <= k < s.len() ==> in_digit(#[trigger] s[k]),
    ensures
        digits_value(s) >= 0,
        s.len() > 0 ==> digits_value(s) >= digits_value(s.drop_last()),
    decreases s.len(),
{
    if s.len() > 0 {
        lemma_digits_value(s.drop_last());
    }
}

/// Whether `c` is a decimal digit.
pub open spec fn in_digit(c: char) -> bool {
    '0' <= c && c <= '9'
}

/// The value of a fraction is below ten times the weight of its first digit.
proof fn lemma_fraction_units(s: Seq<char>, weight: int)
    requires
        weight >= 0,
    ensures
        0 <= fraction_units(s, weight) <= 10 * weight,
    decreases s.len(),
{
    if s.len() > 0 && weight > 0 {
        lemma_fraction_units(s.drop_first(), weight / 10);
    }
}

/// Reads the numeral at the start of `text`: its value, zero if there is
/// none, and whether it is all of `text` but for blanks.
fn read_numeral(text: &Vec<char>) -> (r: (Number, bool))
    ensures
        r.0 == to_number(text@),
        r.1 == looks_numeric(text@),
{
    let n = text.len();
    let sign_at = scan_run(text, 0, CharClass::Blank);
    let negative = sign_at < n && text[sign_at] == '-';
    let whole_at: usize = if negative || (sign_at < n && text[sign_at] == '+') {
        sign_at + 1
    } else {
        sign_at
    };
    let point_at = scan_run(text, whole_at, CharClass::Digit);
    let end_at: usize = if point_at < n && text[point_at] == '.' {
        scan_run(text, point_at + 1, CharClass::Digit)
    } else {
        point_at
    };
    let ghost shape = numeral(text@);
    assert(shape.whole_start == whole_at && shape.whole_end == point_at && shape.end == end_at && shape.negative
        == negative);
    if !(point_at > whole_at || end_at - point_at > 1) {
        return (Number::Finite(0), false);
    }
    proof {
        lemma_run_members(text@, whole_at as int, CharClass::Digit);
    }
    // The whole part, kept at or below ten times the limit.
    let ghost whole_digits = text@.subrange(whole_at as int, point_at as int);
    let mut whole: i128 = 0;
    let mut i: usize = whole_at;
    while i < point_at
        invariant
            whole_at <= i <= point_at <= n,
            n == text@.len(),
            whole_digits == text@.subrange(whole_at as int, point_at as int),
            forall|k: int| 0 <= k < whole_digits.len() ==> in_digit(#[trigger] whole_digits[k]),
            0 <= whole <= WHOLE_LIMIT * 10 + 9,
            whole == digits_value(whole_digits.take(i - whole_at)) || (whole > WHOLE_LIMIT
                && digits_value(whole_digits.take(i - whole_at)) > WHOLE_LIMIT),
        decreases point_at - i,
    {
        proof {
            let next = whole_digits.take(i + 1 - whole_at);
            assert(next.drop_last() == whole_digits.take(i - whole_at));
            assert(next.last() == text@[i as int]);
            lemma_digits_value(next);
        }
        if whole <= WHOLE_LIMIT {
            whole = whole * 10 + char_to_digit(text[i]);
        }
        i += 1;
    }
    assert(whole_digits.take(point_at - whole_at) == whole_digits);
    // The fraction, in units.
    let ghost frac_digits = if end_at > point_at {
        text@.subrange(point_at + 1, end_at as int)
    } else {
        Seq::<char>::empty()
    };
    let mut frac: i128 = 0;
    if end_at > point_at {
        let mut weight: i128 = SCALE / 10;
        let mut j: usize = point_at + 1;
        assert(frac_digits.skip(0) == frac_digits);
        while j < end_at
            invariant
                point_at + 1 <= j <= end_at <= n,
                n == text@.len(),
                frac_digits == text@.subrange(point_at + 1, end_at as int),
                0 <= weight <= SCALE / 10,
                0 <= frac,
                frac + 10 * weight <= SCALE,
                fraction_units(frac_digits, SCALE / 10) == frac + fraction_units(
                    frac_digits.skip(j - (point_at + 1)),
                    weight as int,
                ),
            decreases end_at - j,
        {
            proof {
                let rest = frac_digits.skip(j - (point_at + 1));
                assert(rest[0] == text@[j as int]);
                assert(rest.drop_first() == frac_digits.skip(j + 1 - (point_at + 1)));
            }
            let d = char_to_digit(text[j]);
            assert(d * weight <= 9 * weight) by (nonlinear_arith)
                requires
                    0 <= d <= 9,
                    weight >= 0,
            ;
            assert(0 <= d * weight) by (nonlinear_arith)
                requires
                    0 <= d <= 9,
                    weight >= 0,
            ;
            frac = frac + d * weight;
            weight = weight / 10;
            j += 1;
        }
        assert(frac_digits.skip(end_at - (point_at + 1)).len() == 0);
    }
    let value = if whole > WHOLE_LIMIT {
        if negative {
            Number::NegInf
        } else {
            Number::PosInf
        }
    } else {
        let units: i128 = whole * SCALE + frac;
        if negative {
            Number::Finite(-units).normalized()
        } else {
            Number::Finite(units).normalized()
        }
    };
    proof {
        lemma_fraction_units(frac_digits, SCALE / 10);
        lemma_digits_value(whole_digits);
    }
    let rest = scan_run(text, end_at, CharClass::Blank);
    (value, rest >= n)
}

} // verus!
