use rawk_core::fields::{join_fields, set_field, split_fields};
use rawk_core::format::{
    expand_tabs, expand_tabs_with_tabstop, format_printf, unescape_awk_string,
};
use rawk_core::matcher::{awk_gsub_replace_all, awk_regex_matches, find_region};

fn chars(s: &str) -> Vec<char> {
    s.chars().collect()
}

fn text(v: Vec<char>) -> String {
    v.into_iter().collect()
}

fn matches(t: &str, pattern: &str) -> bool {
    awk_regex_matches(&chars(t), &chars(pattern))
}

fn gsub(t: &str, pattern: &str, replacement: &str) -> String {
    text(awk_gsub_replace_all(&chars(t), &chars(pattern), &chars(replacement)))
}

fn printf(format: &str, args: &[&str]) -> String {
    let args: Vec<Vec<char>> = args.iter().map(|a| chars(a)).collect();
    text(format_printf(&chars(format), &args))
}

fn split(t: &str, separator: &str) -> Vec<String> {
    split_fields(&chars(t), &chars(separator)).into_iter().map(text).collect()
}

#[test]
fn a_literal_pattern_matches_where_its_anchors_say() {
    assert!(matches("hello world", "lo w"));
    assert!(!matches("hello world", "low"));
    assert!(matches("hello", "^hel"));
    assert!(!matches("hello", "^ell"));
    assert!(matches("hello", "llo$"));
    assert!(!matches("hello", "ell$"));
    assert!(matches("hello", "^hello$"));
    assert!(!matches("hello!", "^hello$"));
    assert!(matches("anything", ""));
    assert!(matches("", "^$"));
    assert!(!matches("x", "^$"));
    assert!(matches("x", "^"));
    assert!(matches("x", "$"));
    assert!(!matches("ab", "abc"));
}

#[test]
fn the_digit_class_matches_runs_of_digits() {
    assert!(matches("abc 123 def", "[0-9]+"));
    assert!(!matches("abc def", "[0-9]+"));
    assert!(matches("12ab", "^[0-9]+"));
    assert!(!matches("ab12", "^[0-9]+"));
    assert!(matches("ab12", "[0-9]+$"));
    assert!(!matches("12ab", "[0-9]+$"));
    assert!(matches("2024", "^[0-9]+$"));
    assert!(!matches("20x4", "^[0-9]+$"));
    assert!(!matches("", "^[0-9]+$"));
    assert_eq!(find_region(&chars("ab 123 45"), &chars("[0-9]+")), Some((3, 6)));
    assert_eq!(find_region(&chars("ab 123 45"), &chars("[0-9]+$")), Some((7, 9)));
    assert_eq!(find_region(&chars("123 45"), &chars("^[0-9]+")), Some((0, 3)));
}

#[test]
fn alternatives_match_if_one_of_them_does() {
    assert!(matches("North America", "(Asia|America)"));
    assert!(!matches("Europe", "(Asia|America)"));
    assert!(matches("Asia Minor", "^(Europe|Asia)"));
    assert!(!matches("South Asia", "^(Europe|Asia)"));
    assert!(matches("South Asia", "(Europe|Asia)$"));
    assert!(matches("Asia", "^(Europe|Asia)$"));
    assert!(!matches("Asian", "^(Europe|Asia)$"));
    assert!(matches("(a)", "(a)"));
    assert!(!matches("a", "(a)"));
    assert_eq!(find_region(&chars("xbxa"), &chars("(a|b)")), Some((3, 4)));
}

#[test]
fn gsub_replaces_the_region_that_the_pattern_matches() {
    assert_eq!(gsub("USA 3615 USA", "USA", "United States"), "United States 3615 USA");
    assert_eq!(gsub("hello", "^he", "HE"), "HEllo");
    assert_eq!(gsub("hello", "^lo", "X"), "hello");
    assert_eq!(gsub("hello", "lo$", "LO"), "helLO");
    assert_eq!(gsub("hello", "^hello$", "bye"), "bye");
    assert_eq!(gsub("hello!", "^hello$", "bye"), "hello!");
    assert_eq!(gsub("a1b22c", "[0-9]+", "#"), "a#b22c");
    assert_eq!(gsub("a1b22", "[0-9]+$", "#"), "a1b#");
    assert_eq!(gsub("cat and dog", "(dog|cat)", "pet"), "cat and pet");
    assert_eq!(gsub("hello", "", "x"), "hello");
    assert_eq!(gsub("hello", "^", "x"), "hello");
    assert_eq!(gsub("hello", "zz", "x"), "hello");
    assert_eq!(gsub("aaa", "a", ""), "aa");
}

#[test]
fn escapes_are_expanded() {
    assert_eq!(text(unescape_awk_string(&chars(r#"a\tb\nc\rd\\e\"f"#))), "a\tb\nc\rd\\e\"f");
    assert_eq!(text(unescape_awk_string(&chars(r"\x\/"))), r"\x\/");
    assert_eq!(text(unescape_awk_string(&chars("end\\"))), "end\\");
    assert_eq!(text(unescape_awk_string(&chars(""))), "");
}

#[test]
fn tabs_go_to_the_next_tab_stop() {
    assert_eq!(text(expand_tabs(&chars("\tx"))), "    x");
    assert_eq!(text(expand_tabs(&chars("a\tb"))), "a   b");
    assert_eq!(text(expand_tabs(&chars("abcd\te"))), "abcd    e");
    assert_eq!(text(expand_tabs(&chars("abc\t\td"))), "abc     d");
    assert_eq!(text(expand_tabs(&chars("ab\ncd\te"))), "ab\ncd  e");
    assert_eq!(text(expand_tabs_with_tabstop(&chars("a\tb"), 8)), "a       b");
    assert_eq!(text(expand_tabs_with_tabstop(&chars("a\tb"), 1)), "a b");
    assert_eq!(text(expand_tabs_with_tabstop(&chars("abcdefghi\tj"), 3)), "abcdefghi   j");
}

#[test]
fn printf_converts_its_arguments() {
    assert_eq!(printf("%s and %s", &["a", "b"]), "a and b");
    assert_eq!(printf("%5s|%-5s|", &["ab", "cd"]), "   ab|cd   |");
    assert_eq!(printf("%2s", &["abcdef"]), "abcdef");
    assert_eq!(printf("%d %d %d", &["42", "3.99", "-3.99"]), "42 3 -3");
    assert_eq!(printf("%d %d", &["12abc", "abc"]), "12 0");
    assert_eq!(printf("%5d|%-5d|", &["42", "42"]), "   42|42   |");
    assert_eq!(printf("%f", &["3.14159"]), "3.141590");
    assert_eq!(printf("%.2f %.0f %.1f", &["3.14159", "2.5", "0.05"]), "3.14 2 0.0");
    assert_eq!(printf("%8.3f|%-8.3f|", &["3.14159", "3.14159"]), "   3.142|3.142   |");
    assert_eq!(printf("%.12f", &["0.5"]), "0.500000000000");
    assert_eq!(printf("100%%", &[]), "100%");
    assert_eq!(printf("%s %s", &["only"]), "only ");
    assert_eq!(printf("%x %-3.1q %s", &["a", "b", "c"]), "%x %-3.1q c");
    assert_eq!(printf("%05d", &["7"]), "    7");
    assert_eq!(printf("tail %", &["x"]), "tail %");
    assert_eq!(printf("tail %-5.2", &["x"]), "tail %");
    assert_eq!(printf("é%3sé", &["ü"]), "é  üé");
    assert_eq!(printf("", &["x"]), "");
}

#[test]
fn a_record_is_split_into_fields() {
    assert_eq!(split("  one \t two\nthree  ", " "), vec!["one", "two", "three"]);
    assert_eq!(split("", " "), Vec::<String>::new());
    assert_eq!(split("   ", " "), Vec::<String>::new());
    assert_eq!(split("a,b,,c", ","), vec!["a", "b", "", "c"]);
    assert_eq!(split("", ","), vec![""]);
    assert_eq!(split(",", ","), vec!["", ""]);
    assert_eq!(split("a--b-c", "--"), vec!["a", "b-c"]);
    assert_eq!(split("a b", ""), vec!["a b"]);
    assert_eq!(split("a b", "  "), vec!["a b"]);
}

#[test]
fn fields_are_joined_and_set() {
    let mut fields = vec![chars("a"), chars("b")];
    assert_eq!(text(join_fields(&fields, &chars(", "))), "a, b");
    set_field(&mut fields, 4, chars("d"));
    assert_eq!(text(join_fields(&fields, &chars("-"))), "a-b--d");
    set_field(&mut fields, 1, chars("A"));
    assert_eq!(text(join_fields(&fields, &chars(""))), "Abd");
    assert_eq!(text(join_fields(&Vec::new(), &chars(","))), "");
}

#[test]
fn a_conversion_with_an_unknown_letter_is_copied_as_it_stands() {
    assert_eq!(printf("%05x", &["7"]), "%05x");
    assert_eq!(printf("%.x", &["7"]), "%.x");
    assert_eq!(printf("%-3q|%s", &["7", "8"]), "%-3q|8");
    assert_eq!(printf("a%xb", &[]), "a%xb");
}
