use rawk_core::evaluator::{eval_comparison, eval_numeric_infix};
use rawk_core::number::{LIMIT, SCALE};
use rawk_core::{Awk, Number, TokenKind};

fn print_of(expression: &str) -> String {
    let awk = Awk::new(&format!("BEGIN {{ print {expression} }}")).expect("the script parses");
    let mut out = awk.run(vec![], None);
    assert_eq!(out.len(), 1);
    out.remove(0)
}

fn chars(s: &str) -> Vec<char> {
    s.chars().collect()
}

fn text(v: Vec<char>) -> String {
    v.into_iter().collect()
}

fn number(s: &str) -> Number {
    Number::from_chars(&chars(s))
}

#[test]
fn a_number_is_a_count_of_billionths() {
    assert_eq!(Number::whole(3), Number::Finite(3 * SCALE));
    assert_eq!(number("1.5"), Number::Finite(1_500_000_000));
    assert_eq!(number("-0.25"), Number::Finite(-250_000_000));
    assert_eq!(number(".75"), Number::Finite(750_000_000));
    assert_eq!(number("42."), Number::Finite(42 * SCALE));
    assert_eq!(number("+7"), Number::Finite(7 * SCALE));
    assert_eq!(number("0.1234567891234"), Number::Finite(123_456_789));
}

#[test]
fn a_text_stands_for_the_number_it_starts_with() {
    assert_eq!(number("12abc"), Number::Finite(12 * SCALE));
    assert_eq!(number("  3.5 apples"), Number::Finite(3_500_000_000));
    assert_eq!(number("abc"), Number::Finite(0));
    assert_eq!(number(""), Number::Finite(0));
    assert_eq!(number("-"), Number::Finite(0));
    assert_eq!(number("."), Number::Finite(0));
    assert_eq!(number("1.2.3"), Number::Finite(1_200_000_000));
}

#[test]
fn only_a_whole_numeral_is_numeric() {
    assert_eq!(Number::parse_chars(&chars("12")), Some(Number::Finite(12 * SCALE)));
    assert_eq!(Number::parse_chars(&chars(" 12.5 ")), Some(Number::Finite(12_500_000_000)));
    assert_eq!(Number::parse_chars(&chars("12abc")), None);
    assert_eq!(Number::parse_chars(&chars("")), None);
    assert_eq!(Number::parse_chars(&chars("abc")), None);
    assert_eq!(Number::parse_chars(&chars("1 2")), None);
}

#[test]
fn numbers_beyond_the_limit_are_infinite() {
    assert_eq!(Number::Finite(LIMIT).normalized(), Number::Finite(LIMIT));
    assert_eq!(Number::Finite(LIMIT + 1).normalized(), Number::PosInf);
    assert_eq!(Number::Finite(-LIMIT - 1).normalized(), Number::NegInf);
    assert_eq!(number("100000000000000000000"), Number::Finite(LIMIT));
    assert_eq!(number("100000000000000000000.000000001"), Number::PosInf);
    assert_eq!(number("-999999999999999999999999999999"), Number::NegInf);
    assert_eq!(Number::Finite(LIMIT).plus(Number::Finite(1)), Number::PosInf);
    assert_eq!(Number::Finite(LIMIT).times(Number::whole(2)), Number::PosInf);
    assert_eq!(Number::Finite(-LIMIT).times(Number::whole(2)), Number::NegInf);
}

#[test]
fn arithmetic_is_exact_up_to_the_ninth_decimal_place() {
    let two = Number::whole(2);
    let three = Number::whole(3);
    assert_eq!(two.plus(three), Number::whole(5));
    assert_eq!(two.minus(three), Number::whole(-1));
    assert_eq!(two.times(three), Number::whole(6));
    assert_eq!(number("1.5").times(number("-2.5")), Number::Finite(-3_750_000_000));
    assert_eq!(number("0.000000001").times(number("0.5")), Number::Finite(0));
    assert_eq!(Number::whole(1).over(three), Number::Finite(333_333_333));
    assert_eq!(Number::whole(-1).over(three), Number::Finite(-333_333_333));
    assert_eq!(Number::whole(7).modulo(three), Number::whole(1));
    assert_eq!(Number::whole(-7).modulo(three), Number::whole(-1));
    assert_eq!(number("7.5").modulo(two), number("1.5"));
    assert_eq!(Number::whole(12345678901).times(Number::whole(1000000000)), Number::Finite(12345678901 * SCALE * SCALE));
}

#[test]
fn division_by_zero_is_infinite_or_not_a_number() {
    let zero = Number::whole(0);
    assert_eq!(Number::whole(1).over(zero), Number::PosInf);
    assert_eq!(Number::whole(-1).over(zero), Number::NegInf);
    assert_eq!(zero.over(zero), Number::Nan);
    assert_eq!(Number::whole(1).modulo(zero), Number::Nan);
    assert_eq!(Number::PosInf.minus(Number::PosInf), Number::Nan);
    assert_eq!(Number::PosInf.times(zero), Number::Nan);
    assert_eq!(Number::PosInf.over(Number::NegInf), Number::Nan);
    assert_eq!(Number::whole(5).over(Number::PosInf), zero);
    assert_eq!(Number::NegInf.times(Number::whole(-2)), Number::PosInf);
    assert_eq!(Number::Nan.plus(Number::whole(1)), Number::Nan);
}

#[test]
fn powers_take_whole_exponents() {
    assert_eq!(Number::whole(2).power(Number::whole(10)), Number::whole(1024));
    assert_eq!(Number::whole(2).power(Number::whole(0)), Number::whole(1));
    assert_eq!(Number::whole(0).power(Number::whole(0)), Number::whole(1));
    assert_eq!(Number::whole(2).power(Number::whole(-2)), number("0.25"));
    assert_eq!(Number::whole(-3).power(Number::whole(3)), Number::whole(-27));
    assert_eq!(number("1.5").power(Number::whole(2)), number("2.25"));
    assert_eq!(Number::whole(10).power(Number::whole(21)), Number::PosInf);
    assert_eq!(Number::whole(2).power(number("0.5")), Number::Nan);
    assert_eq!(Number::whole(2).power_whole(3), Number::whole(8));
}

#[test]
fn numbers_are_ordered_and_what_is_not_a_number_is_apart() {
    assert!(Number::whole(1).less(Number::whole(2)));
    assert!(!Number::whole(2).less(Number::whole(2)));
    assert!(Number::NegInf.less(Number::whole(-5)));
    assert!(Number::whole(5).less(Number::PosInf));
    assert!(!Number::PosInf.less(Number::PosInf));
    assert!(!Number::Nan.less(Number::whole(1)));
    assert!(!Number::whole(1).less(Number::Nan));
    assert!(Number::whole(2).same(number("2.0")));
    assert!(!Number::Nan.same(Number::Nan));
    assert!(Number::Finite(LIMIT + 5).same(Number::PosInf));
    assert!(Number::whole(-1).negative());
    assert!(!Number::whole(0).negative());
    assert_eq!(Number::whole(4).negated(), Number::whole(-4));
}

#[test]
fn the_whole_part_is_cut_off_towards_zero() {
    assert_eq!(number("2.9").whole_part(i64::MIN, i64::MAX), 2);
    assert_eq!(number("-2.9").whole_part(i64::MIN, i64::MAX), -2);
    assert_eq!(Number::PosInf.whole_part(i64::MIN, i64::MAX), i64::MAX);
    assert_eq!(Number::NegInf.whole_part(i64::MIN, i64::MAX), i64::MIN);
    assert_eq!(Number::Nan.whole_part(i64::MIN, i64::MAX), 0);
    assert_eq!(number("12345678901234567890").whole_part(i64::MIN, i64::MAX), i64::MAX);
    assert_eq!(number("7").whole_part(0, 5), 5);
}

#[test]
fn print_writes_six_significant_digits() {
    assert_eq!(print_of("0"), "0");
    assert_eq!(print_of("100"), "100");
    assert_eq!(print_of("1000000"), "1000000");
    assert_eq!(print_of("1 / 3"), "0.333333");
    assert_eq!(print_of("2 / 3"), "0.666667");
    assert_eq!(print_of("10 / 3"), "3.33333");
    assert_eq!(print_of("1000 / 3"), "333.333");
    assert_eq!(print_of("100000 / 3"), "33333.3");
    assert_eq!(print_of("1000000 / 3"), "333333");
    assert_eq!(print_of("0.1 + 0.2"), "0.3");
    assert_eq!(print_of("8649 / 1000"), "8.649");
    assert_eq!(print_of("1000 * 275 / 8649"), "31.7956");
    assert_eq!(print_of("3 - 5"), "-2");
    assert_eq!(print_of("0 - 0.5"), "-0.5");
    assert_eq!(print_of("1234567.5 + 0"), "1234568");
    assert_eq!(print_of("1234566.5 + 0"), "1234566");
    assert_eq!(print_of("0.0000004 + 0"), "0");
    assert_eq!(print_of("0.0000015 + 0"), "0.000002");
    assert_eq!(print_of("999999.5 + 0"), "1000000");
    assert_eq!(print_of("0x1F + 0"), "31");
    assert_eq!(print_of("0XfF"), "255");
}

#[test]
fn print_writes_what_is_not_finite_by_name() {
    assert_eq!(print_of("1 / 0"), "inf");
    assert_eq!(print_of("(0 - 1) / 0"), "-inf");
    assert_eq!(print_of("0 / 0"), "NaN");
    assert_eq!(print_of("5 % 0"), "NaN");
    assert_eq!(print_of("2 ^ 0.5"), "NaN");
    assert_eq!(print_of("10 ^ 25"), "inf");
}

#[test]
fn a_number_is_written_in_three_ways() {
    let n = number("1234.5678915");
    assert_eq!(text(n.display_chars()), "1234.57");
    assert_eq!(text(n.exact_chars()), "1234.567891500".trim_end_matches('0'));
    assert_eq!(text(n.fixed_chars(0)), "1235");
    assert_eq!(text(n.fixed_chars(2)), "1234.57");
    assert_eq!(text(n.fixed_chars(9)), "1234.567891500");
    assert_eq!(text(n.fixed_chars(12)), "1234.567891500000");
    assert_eq!(text(number("-0.5").fixed_chars(0)), "-0");
    assert_eq!(text(number("0.5").fixed_chars(0)), "0");
    assert_eq!(text(number("1.5").fixed_chars(0)), "2");
    assert_eq!(text(number("2.5").fixed_chars(0)), "2");
    assert_eq!(text(number("0.125").fixed_chars(2)), "0.12");
    assert_eq!(text(number("0.135").fixed_chars(2)), "0.14");
    assert_eq!(text(Number::whole(0).exact_chars()), "0");
    assert_eq!(text(Number::whole(-12).exact_chars()), "-12");
    assert_eq!(text(Number::PosInf.fixed_chars(3)), "inf");
    assert_eq!(text(Number::NegInf.exact_chars()), "-inf");
    assert_eq!(text(Number::Nan.display_chars()), "NaN");
}

#[test]
fn sums_are_kept_with_all_their_places() {
    let awk = Awk::new("{ s += $1 } END { print s; print s * 1 }").expect("the script parses");
    let out = awk.run(vec!["0.1234567".to_string(), "1000".to_string()], None);
    assert_eq!(out, vec!["1000.1234567".to_string(), "1000.12".to_string()]);
}

#[test]
fn a_comparison_answers_for_the_six_comparisons_only() {
    let chars = |s: &str| s.chars().collect::<Vec<char>>();
    let compare = |kind: TokenKind, a: &str, b: &str| eval_comparison(kind, &chars(a), &chars(b));
    assert_eq!(compare(TokenKind::LessThan, "10", "9"), Some(false));
    assert_eq!(compare(TokenKind::LessThan, "10", "9a"), Some(true));
    assert_eq!(compare(TokenKind::LessThan, "abc", "abd"), Some(true));
    assert_eq!(compare(TokenKind::Equal, "1.0", "1"), Some(true));
    assert_eq!(compare(TokenKind::Equal, "a", "A"), Some(false));
    assert_eq!(compare(TokenKind::NotEqual, "a", "A"), Some(true));
    assert_eq!(compare(TokenKind::GreaterThan, "2", "10"), Some(false));
    assert_eq!(compare(TokenKind::GreaterThanOrEqual, "b", "a"), Some(true));
    assert_eq!(compare(TokenKind::LessThanOrEqual, "3", "3.0"), Some(true));
    assert_eq!(compare(TokenKind::Plus, "a", "b"), None);
    assert_eq!(compare(TokenKind::Tilde, "1", "1"), None);
    assert_eq!(compare(TokenKind::Comma, "1", "2"), None);
}

#[test]
fn arithmetic_answers_for_the_operators_of_arithmetic_only() {
    let one = Number::Finite(SCALE);
    let two = Number::Finite(2 * SCALE);
    assert_eq!(eval_numeric_infix(TokenKind::Plus, one, two), Some(Number::Finite(3 * SCALE)));
    assert_eq!(eval_numeric_infix(TokenKind::Minus, one, two), Some(Number::Finite(-SCALE)));
    assert_eq!(eval_numeric_infix(TokenKind::Caret, two, two), Some(Number::Finite(4 * SCALE)));
    assert_eq!(eval_numeric_infix(TokenKind::Percent, two, two), Some(Number::Finite(0)));
    assert_eq!(eval_numeric_infix(TokenKind::LessThan, one, two), None);
    assert_eq!(eval_numeric_infix(TokenKind::And, one, two), None);
}
