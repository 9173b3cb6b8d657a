use rawk_core::{Awk, Evaluator, Lexer, Parser};

fn run(script: &str, records: &[&str]) -> Vec<String> {
    let awk = Awk::new(script).expect("the script parses");
    awk.run(records.iter().map(|r| r.to_string()).collect(), None)
}

fn lines(expected: &[&str]) -> Vec<String> {
    expected.iter().map(|l| l.to_string()).collect()
}

#[test]
fn print_writes_every_record_as_it_is() {
    assert_eq!(run("{ print }", &["foo", "bar"]), lines(&["foo", "bar"]));
}

#[test]
fn arithmetic_follows_precedence_and_associativity() {
    assert_eq!(run("BEGIN { print 1+2 }", &[]), lines(&["3"]));
    assert_eq!(run("BEGIN { print 2^3^2 }", &[]), lines(&["512"]));
    assert_eq!(run("BEGIN { print 5-3-1 }", &[]), lines(&["1"]));
    assert_eq!(run("BEGIN { print 2 + 3 * 4 - 6 / 3 }", &[]), lines(&["12"]));
    assert_eq!(run("BEGIN { print (2 + 3) * 4 }", &[]), lines(&["20"]));
    assert_eq!(run("BEGIN { print 17 % 5 }", &[]), lines(&["2"]));
}

#[test]
fn fields_are_the_words_of_the_record() {
    assert_eq!(run("{ print $1, $3 }", &["one     two three"]), lines(&["one three"]));
    assert_eq!(run("{ print NF, $1 }", &["one two three"]), lines(&["3 one"]));
    assert_eq!(run("{ print NF, $1 }", &[""]), lines(&["0 "]));
    assert_eq!(run("{ print $NF }", &["  a\tb  c  "]), lines(&["c"]));
    assert_eq!(run("{ print $(NF - 1) }", &["a b c"]), lines(&["b"]));
    assert_eq!(run("{ print $7 }", &["a b c"]), lines(&[""]));
    assert_eq!(run("{ print $0 }", &["  a  b "]), lines(&["  a  b "]));
}

#[test]
fn a_field_separator_other_than_the_space_is_taken_literally() {
    assert_eq!(run("BEGIN { FS = \",\" } { print $2 }", &["a,b,,c"]), lines(&["b"]));
    assert_eq!(run("BEGIN { FS = \",\" } { print NF }", &["a,b,,c", "", ","]), lines(&["4", "1", "2"]));
    assert_eq!(run("BEGIN { FS = \"::\" } { print $2 }", &["x::y z::w"]), lines(&["y z"]));
    assert_eq!(run("BEGIN { FS = \"\\t\" } { print $2 }", &["a b\tc d"]), lines(&["c d"]));
}

#[test]
fn printf_pads_and_aligns() {
    assert_eq!(
        run("{ printf \"[%10s] [%-16d]\\n\", $1, $3 }", &["USSR 8649 275 Asia"]),
        lines(&["[      USSR] [275             ]"])
    );
}

#[test]
fn a_range_pattern_selects_from_each_start_through_the_next_end() {
    let records = [
        "before", "START one", "inside", "END one", "between", "START and END", "after",
        "START two", "open",
    ];
    assert_eq!(
        run("/START/,/END/", &records),
        lines(&["START one", "inside", "END one", "START and END", "START two", "open"])
    );
    assert_eq!(
        run("/START/,/END/ { print NR }", &records),
        lines(&["2", "3", "4", "6", "8", "9"])
    );
}

#[test]
fn each_range_pattern_keeps_its_own_state() {
    let records = ["a", "b", "c", "d"];
    assert_eq!(
        run("/a/,/b/ { print \"x\" $0 } /b/,/d/ { print \"y\" $0 }", &records),
        lines(&["xa", "xb", "yb", "yc", "yd"])
    );
}

#[test]
fn gsub_replaces_in_the_record() {
    assert_eq!(
        run("{ gsub(/USA/, \"United States\"); print }", &["USA 3615 237 North America"]),
        lines(&["United States 3615 237 North America"])
    );
}

#[test]
fn without_records_only_the_begin_and_end_blocks_run() {
    assert_eq!(
        run("END { print \"e\", NR } { print \"never\" } /x/\nBEGIN { print \"b\" }", &[]),
        lines(&["b", "e 0"])
    );
}

#[test]
fn the_begin_blocks_run_before_the_records_and_the_end_blocks_after() {
    assert_eq!(
        run("END { print NR } BEGIN { print NR } { print NR } END { print \"done\" }", &["a", "b"]),
        lines(&["0", "1", "2", "2", "done"])
    );
}

#[test]
fn every_rule_sees_a_record_before_the_next_record() {
    assert_eq!(
        run("{ print \"x\", $0 } { print \"y\", $0 }", &["1", "2"]),
        lines(&["x 1", "y 1", "x 2", "y 2"])
    );
}

#[test]
fn a_pattern_without_an_action_writes_the_record() {
    assert_eq!(run("$1 > 2", &["1", "3", "2", "10"]), lines(&["3", "10"]));
    assert_eq!(run("/b/", &["abc", "xyz", "b"]), lines(&["abc", "b"]));
    assert_eq!(run("NR == 2", &["a", "b", "c"]), lines(&["b"]));
}

#[test]
fn comparisons_are_numeric_between_numbers_and_textual_otherwise() {
    assert_eq!(run("$1 < $2", &["9 10", "abc abd", "10 9", "b a", "2 10x"]), lines(&["9 10", "abc abd"]));
    assert_eq!(run("$1 == $2", &["1 1.0", "a a", "a b"]), lines(&["1 1.0", "a a"]));
    assert_eq!(run("$1 != $2", &["1 1.0", "a b"]), lines(&["a b"]));
    assert_eq!(run("$1 >= $2", &["2 2", "3 2", "1 2"]), lines(&["2 2", "3 2"]));
    assert_eq!(run("$1 <= $2", &["2 2", "3 2", "1 2"]), lines(&["2 2", "1 2"]));
    assert_eq!(run("$1 >= \"M\"", &["USSR", "Canada", "Mexico"]), lines(&["USSR", "Mexico"]));
}

#[test]
fn conditions_combine_with_and_and_or() {
    assert_eq!(run("$1 > 1 && $1 < 4", &["1", "2", "3", "4"]), lines(&["2", "3"]));
    assert_eq!(run("$1 < 2 || $1 > 3", &["1", "2", "3", "4"]), lines(&["1", "4"]));
    assert_eq!(run("/a/ && /b/", &["a", "ab", "b"]), lines(&["ab"]));
    assert_eq!(run("$1 ~ /x/ || /z/", &["x y", "y x", "y z"]), lines(&["x y", "y z"]));
}

#[test]
fn the_match_operators_take_a_pattern_from_text_too() {
    assert_eq!(run("$2 ~ /Asia/ { print $1 }", &["USSR Asia", "Canada America"]), lines(&["USSR"]));
    assert_eq!(run("$2 !~ /Asia/ { print $1 }", &["USSR Asia", "Canada America"]), lines(&["Canada"]));
    assert_eq!(run("$1 ~ $2", &["hello ^he", "hello lo$", "hello ^lo"]), lines(&["hello ^he", "hello lo$"]));
}

#[test]
fn a_condition_that_is_no_comparison_holds_by_its_value() {
    assert_eq!(run("$1", &["0", "1", "", "abc", "0.0", "-2"]), lines(&["1", "abc", "-2"]));
    assert_eq!(run("NR % 2", &["a", "b", "c"]), lines(&["a", "c"]));
    assert_eq!(run("x", &["a"]), lines(&[]));
    assert_eq!(run("1", &["a"]), lines(&["a"]));
    assert_eq!(run("0", &["a"]), lines(&[]));
}

#[test]
fn variables_start_empty_and_count_as_zero() {
    assert_eq!(run("{ print XYZ }", &["one two"]), lines(&[""]));
    assert_eq!(run("BEGIN { print x + 1 }", &[]), lines(&["1"]));
    assert_eq!(run("{ n += $1 } END { print n }", &["1", "2.5", "x", "3abc"]), lines(&["6.5"]));
    assert_eq!(run("{ ++n; m++ } END { print n, m }", &["a", "b"]), lines(&["2 2"]));
}

#[test]
fn assignments_chain_and_set_the_separators() {
    assert_eq!(
        run("BEGIN { FS = OFS = \"\\t\" } { $4 = \"NA\"; print }", &["Canada\t3852\t25\tNorth America"]),
        lines(&["Canada\t3852\t25\tNA"])
    );
    assert_eq!(run("BEGIN { a = b = c = 7; print a, b, c }", &[]), lines(&["7 7 7"]));
    assert_eq!(run("BEGIN { OFS = \"-\" } { $1 = $1; print }", &["a b  c"]), lines(&["a-b-c"]));
}

#[test]
fn assigning_to_a_field_rebuilds_the_record() {
    assert_eq!(run("{ $2 = \"X\"; print }", &["a b c"]), lines(&["a X c"]));
    assert_eq!(run("{ $5 = \"x\"; print; print NF }", &["a b"]), lines(&["a b   x", "3"]));
    assert_eq!(run("{ $2 /= 1000; print }", &["USSR 8649 275"]), lines(&["USSR 8.649 275"]));
    assert_eq!(run("{ $2 += 1; $3 *= 2; $1 -= 1; print }", &["5 6 7"]), lines(&["4 7 14"]));
    assert_eq!(run("{ $(0) = \"x\"; print }", &["a b"]), lines(&["a b"]));
}

#[test]
fn arrays_keep_a_value_for_each_index() {
    assert_eq!(
        run(
            "{ pop[$2] += $1 } END { print pop[\"Asia\"], pop[\"Europe\"], pop[\"none\"] }",
            &["275 Asia", "55 Europe", "1032 Asia"]
        ),
        lines(&["1307 55 "])
    );
    assert_eq!(run("BEGIN { a[1] = \"x\"; a[\"1\"] = \"y\"; print a[1] }", &[]), lines(&["y"]));
}

#[test]
fn length_and_substr_count_characters() {
    assert_eq!(run("{ print length, $0 }", &["USSR 8649 275 Asia"]), lines(&["18 USSR 8649 275 Asia"]));
    assert_eq!(run("{ print length($1), length() }", &["héllo wörld"]), lines(&["5 11"]));
    assert_eq!(run("BEGIN { print length }", &[]), lines(&["0"]));
    assert_eq!(run("{ print substr($1, 2, 3) }", &["abcdef"]), lines(&["bcd"]));
    assert_eq!(run("{ print substr($1, 4) }", &["abcdef"]), lines(&["def"]));
    assert_eq!(run("{ print substr($1, 0, 2) }", &["abcdef"]), lines(&["ab"]));
    assert_eq!(run("{ print substr($1, 5, 10) }", &["abcdef"]), lines(&["ef"]));
    assert_eq!(run("{ print substr($1, 7) }", &["abcdef"]), lines(&[""]));
    assert_eq!(run("{ print substr($1, 2, 0) }", &["abcdef"]), lines(&[""]));
}

#[test]
fn concatenation_joins_texts() {
    assert_eq!(run("BEGIN { print \"Value:\" 42 }", &[]), lines(&["Value:42"]));
    assert_eq!(run("{ s = s \" \" substr($1, 1, 3) } END { print s }", &["USSR", "Canada"]), lines(&[" USS Can"]));
    assert_eq!(run("BEGIN { print 1 \" \" 2 + 3 }", &[]), lines(&["1 5"]));
}

#[test]
fn if_while_and_for_steer_the_statements() {
    assert_eq!(
        run("{ if ($1 > max) { max = $1; name = $2 } } END { print max, name }", &["3 a", "9 b", "5 c"]),
        lines(&["9 b"])
    );
    assert_eq!(run("{ if ($1 > 1) print \"big\" }", &["1", "2"]), lines(&["big"]));
    assert_eq!(run("{ i = 1; while (i <= NF) { print $i; i++ } }", &["a b c"]), lines(&["a", "b", "c"]));
    assert_eq!(run("{ i = 3; while (i > 0) i += 0 - 1; print i }", &["a"]), lines(&["0"]));
    assert_eq!(run("{ for (i = NF; i > 0; i += 0 - 1) print $i }", &["a b c"]), lines(&["c", "b", "a"]));
    assert_eq!(run("BEGIN { for (i = 1; i <= 3; i++) { s = s i } print s }", &[]), lines(&["123"]));
}

#[test]
fn exit_goes_to_the_end_blocks() {
    assert_eq!(
        run("NR >= 3 { exit } { print } END { print \"end\", NR }", &["a", "b", "c", "d"]),
        lines(&["a", "b", "end 4"])
    );
    assert_eq!(run("BEGIN { print 1; exit; print 2 } { print } END { print 3 }", &["a"]), lines(&["1", "3"]));
    assert_eq!(run("END { print 1; exit; print 2 } END { print 3 }", &[]), lines(&["1"]));
    assert_eq!(run("{ while (1) { print; exit } }", &["a", "b"]), lines(&["a"]));
}

#[test]
fn the_special_variables_are_read_from_the_run() {
    assert_eq!(run("{ print NR, FNR, NF, FILENAME }", &["a b", "c"]), lines(&["1 1 2 -", "2 2 1 -"]));
    let awk = Awk::new("END { print FILENAME, NR }").expect("the script parses");
    assert_eq!(
        awk.run(vec!["x".to_string()], Some("countries".to_string())),
        lines(&["countries 1"])
    );
}

#[test]
fn a_loop_stops_at_the_limit() {
    let mut parser = Parser::new(Lexer::new("BEGIN { while (1) { n++ } print n; for (;;) x }"));
    assert!(parser.parse_program().is_err());
    let mut parser = Parser::new(Lexer::new(
        "BEGIN { while (1) { n++ } print n; for (i = 0; 1; i++) { m++ } print m, i }",
    ));
    let program = parser.parse_program().expect("the script parses");
    let mut evaluator = Evaluator::new(program, vec![]);
    evaluator.set_loop_limit(5);
    assert_eq!(evaluator.eval(), lines(&["5", "5 5"]));
    assert_eq!(evaluator.eval(), lines(&["5", "5 5"]));
}

#[test]
fn a_session_writes_what_a_run_on_all_the_records_writes() {
    let script = "BEGIN { print \"begin\" } /a/,/c/ { print NR, $0 } END { print \"end\", NR }";
    let records = ["x", "a", "b", "c", "d", "a"];
    let awk = Awk::new(script).expect("the script parses");
    let mut session = awk.session("-");
    assert_eq!(session.lines_written(), 1);
    assert_eq!(session.lines_from(0), lines(&["begin"]));
    let mut seen = 1;
    let mut streamed = lines(&["begin"]);
    for record in records {
        assert!(session.feed(record));
        let new = session.lines_from(seen);
        seen += new.len();
        streamed.extend(new);
    }
    assert_eq!(streamed, lines(&["begin", "2 a", "3 b", "4 c", "6 a"]));
    assert_eq!(session.lines_from(100), lines(&[]));
    let all = session.finish();
    assert_eq!(all, run(script, &records));
    assert_eq!(all, lines(&["begin", "2 a", "3 b", "4 c", "6 a", "end 6"]));
}

#[test]
fn print_joins_its_arguments_with_single_spaces() {
    assert_eq!(run("BEGIN { print \"a\", \"b\" \"c\", 1 + 1 }", &[]), lines(&["a bc 2"]));
    assert_eq!(run("BEGIN { print \"a\\tb\" }", &[]), lines(&["a\\tb"]));
    assert_eq!(run("BEGIN { print }", &[]), lines(&[""]));
}

#[test]
fn comments_and_continuations_are_no_statements() {
    let script = "# leading comment\nBEGIN { x = 1 # set\n  print x, \\\n    2 }\n# trailing\n";
    assert_eq!(run(script, &[]), lines(&["1 2"]));
}

#[test]
fn print_puts_the_output_separator_where_a_comma_stands() {
    assert_eq!(run("BEGIN { OFS = \"-\"; print \"a\", \"b\" }", &[]), lines(&["a-b"]));
    assert_eq!(run("BEGIN { OFS = \"-\"; print \"a\" \" \" \"b\" }", &[]), lines(&["a b"]));
    assert_eq!(run("BEGIN { OFS = \"\"; print 1, 2, 3 }", &[]), lines(&["123"]));
    assert_eq!(run("BEGIN { OFS = \"-\"; print \" \" }", &[]), lines(&[" "]));
    assert_eq!(run("BEGIN { OFS = \"::\" } { print $2, $1 }", &["a b"]), lines(&["b::a"]));
}
