use rawk_core::{Evaluator, Lexer, Parser};


#[test]
fn eval_print_action_outputs_input_line() {
    let lexer = Lexer::new("{ print }");
    let mut parser = Parser::new(lexer);
    let program = parser.parse_program().expect("the script parses");
    let mut evaluator = Evaluator::new(program, vec!["hello, world!".to_string()]);

    let output = evaluator.eval();

    assert_eq!(output.len(), 1);
    assert_eq!(output[0], "hello, world!");
}

#[test]
fn eval_begin_print_string_literal() {
    let lexer = Lexer::new(r#"BEGIN { print "hello" }"#);
    let mut parser = Parser::new(lexer);
    let program = parser.parse_program().expect("the script parses");
    let mut evaluator = Evaluator::new(program, vec![]);

    let output = evaluator.eval();

    assert_eq!(output, vec!["hello".to_string()]);
}

#[test]
fn eval_end_print_string_literal() {
    let lexer = Lexer::new(r#"END { print "42" } { print "hello" }"#);
    let mut parser = Parser::new(lexer);
    let program = parser.parse_program().expect("the script parses");
    let mut evaluator = Evaluator::new(program, vec!["one row".to_string()]);

    let output = evaluator.eval();

    assert_eq!(output, vec!["hello".to_string(), "42".to_string()]);
}

#[test]
fn eval_print_numeric_plus_infix_expression() {
    let lexer = Lexer::new(r#"BEGIN { print 1 + 2 }"#);
    let mut parser = Parser::new(lexer);
    let program = parser.parse_program().expect("the script parses");
    let mut evaluator = Evaluator::new(program, vec![]);

    let output = evaluator.eval();

    assert_eq!(output, vec!["3".to_string()]);
}

#[test]
fn eval_print_numberic_multiply_infix_expression() {
    let lexer = Lexer::new(r#"BEGIN { print 2 * 3 }"#);
    let mut parser = Parser::new(lexer);
    let program = parser.parse_program().expect("the script parses");
    let mut evaluator = Evaluator::new(program, vec![]);

    let output = evaluator.eval();

    assert_eq!(output, vec!["6".to_string()]);
}

#[test]
fn eval_print_numeric_mod_infix_expression() {
    let lexer = Lexer::new(r#"BEGIN { print 5 % 3 }"#);
    let mut parser = Parser::new(lexer);
    let program = parser.parse_program().expect("the script parses");
    let mut evaluator = Evaluator::new(program, vec![]);

    let output = evaluator.eval();

    assert_eq!(output, vec!["2".to_string()]);
}

#[test]
fn eval_print_numeric_div_infix_expression() {
    let lexer = Lexer::new(r#"BEGIN { print 5 / 5 }"#);
    let mut parser = Parser::new(lexer);
    let program = parser.parse_program().expect("the script parses");
    let mut evaluator = Evaluator::new(program, vec![]);

    let output = evaluator.eval();

    assert_eq!(output, vec!["1".to_string()]);
}

#[test]
fn eval_print_numeric_caret_infix_expression() {
    let lexer = Lexer::new(r#"BEGIN { print 2 ^ 3 }"#);
    let mut parser = Parser::new(lexer);
    let program = parser.parse_program().expect("the script parses");
    let mut evaluator = Evaluator::new(program, vec![]);

    let output = evaluator.eval();

    assert_eq!(output, vec!["8".to_string()]);
}

#[test]
fn eval_print_numeric_minus_infix_expression() {
    let lexer = Lexer::new(r#"BEGIN { print 5 - 3 }"#);
    let mut parser = Parser::new(lexer);
    let program = parser.parse_program().expect("the script parses");
    let mut evaluator = Evaluator::new(program, vec![]);

    let output = evaluator.eval();

    assert_eq!(output, vec!["2".to_string()]);
}

#[test]
fn eval_print_string_and_number_expressions() {
    let lexer = Lexer::new(r#"BEGIN { print "Value:" 42 }"#);
    let mut parser = Parser::new(lexer);
    let program = parser.parse_program().expect("the script parses");
    let mut evaluator = Evaluator::new(program, vec![]);

    let output = evaluator.eval();

    assert_eq!(output, vec!["Value:42".to_string()]);
}

#[test]
fn eval_print_expression_with_parantheses() {
    let lexer = Lexer::new(r#"BEGIN { print (1 + 2) * 3 }"#);
    let mut parser = Parser::new(lexer);
    let program = parser.parse_program().expect("the script parses");
    let mut evaluator = Evaluator::new(program, vec![]);

    let output = evaluator.eval();

    assert_eq!(output, vec!["9".to_string()]);
}

#[test]
fn eval_print_multiplication_has_higher_precedence_than_addition() {
    let lexer = Lexer::new(r#"BEGIN { print 1 + 2 * 3 }"#);
    let mut parser = Parser::new(lexer);
    let program = parser.parse_program().expect("the script parses");
    let mut evaluator = Evaluator::new(program, vec![]);

    let output = evaluator.eval();

    assert_eq!(output, vec!["7".to_string()]);
}

#[test]
fn eval_print_power_is_right_associative() {
    let lexer = Lexer::new(r#"BEGIN { print 2 ^ 3 ^ 2 }"#);
    let mut parser = Parser::new(lexer);
    let program = parser.parse_program().expect("the script parses");
    let mut evaluator = Evaluator::new(program, vec![]);

    let output = evaluator.eval();

    assert_eq!(output, vec!["512".to_string()]);
}

#[test]
fn eval_print_minus_is_left_associative() {
    let lexer = Lexer::new(r#"BEGIN { print 5 - 3 - 1 }"#);
    let mut parser = Parser::new(lexer);
    let program = parser.parse_program().expect("the script parses");
    let mut evaluator = Evaluator::new(program, vec![]);

    let output = evaluator.eval();

    assert_eq!(output, vec!["1".to_string()]);
}

#[test]
fn eval_print_field_zero_returns_entire_line() {
    let lexer = Lexer::new(r#"{ print $0 }"#);
    let mut parser = Parser::new(lexer);
    let program = parser.parse_program().expect("the script parses");
    let mut evaluator = Evaluator::new(program, vec!["one two".to_string()]);

    let output = evaluator.eval();

    assert_eq!(output, vec!["one two".to_string()]);
}

#[test]
fn eval_print_field_first_column() {
    let lexer = Lexer::new(r#"{ print $1, $3 }"#);
    let mut parser = Parser::new(lexer);
    let program = parser.parse_program().expect("the script parses");
    let mut evaluator = Evaluator::new(program, vec!["one     two three".to_string()]);

    let output = evaluator.eval();

    assert_eq!(output, vec!["one three".to_string()]);
}

#[test]
fn eval_print_number_of_fields_identifier() {
    let lexer = Lexer::new(r#"{ print NF, $1 }"#);
    let mut parser = Parser::new(lexer);
    let program = parser.parse_program().expect("the script parses");
    let mut evaluator = Evaluator::new(program, vec!["one two three".to_string()]);

    let output = evaluator.eval();

    assert_eq!(output, vec!["3 one".to_string()]);
}

#[test]
fn eval_print_number_of_fields_on_empty_line() {
    let lexer = Lexer::new(r#"{ print NF }"#);
    let mut parser = Parser::new(lexer);
    let program = parser.parse_program().expect("the script parses");
    let mut evaluator = Evaluator::new(program, vec!["".to_string()]);

    let output = evaluator.eval();

    assert_eq!(output, vec!["0".to_string()]);
}

#[test]
fn eval_print_uninitialized_identifier() {
    let lexer = Lexer::new(r#"{ print XYZ }"#);
    let mut parser = Parser::new(lexer);
    let program = parser.parse_program().expect("the script parses");
    let mut evaluator = Evaluator::new(program, vec!["one two".to_string()]);

    let output = evaluator.eval();

    assert_eq!(output, vec!["".to_string()]);
}

#[test]
fn eval_print_use_number_of_fields_in_field_expression() {
    let lexer = Lexer::new(r#"{ print $NF }"#);
    let mut parser = Parser::new(lexer);
    let program = parser.parse_program().expect("the script parses");
    let mut evaluator = Evaluator::new(program, vec!["one two three".to_string()]);

    let output = evaluator.eval();

    assert_eq!(output, vec!["three".to_string()]);
}

#[test]
fn eval_print_line_numbers() {
    let lexer = Lexer::new(r#"{ print NR, $0 }"#);
    let mut parser = Parser::new(lexer);
    let program = parser.parse_program().expect("the script parses");
    let mut evaluator = Evaluator::new(program, vec!["one".to_string(), "two".to_string()]);

    let output = evaluator.eval();

    assert_eq!(output, vec!["1 one".to_string(), "2 two".to_string()]);
}

#[test]
fn eval_printf_with_width_and_alignment() {
    let lexer = Lexer::new(r#"{ printf "[%10s] [%-16d]\n", $1, $3 }"#);
    let mut parser = Parser::new(lexer);
    let program = parser.parse_program().expect("the script parses");
    let mut evaluator = Evaluator::new(program, vec!["USSR 8649 275 Asia".to_string()]);

    let output = evaluator.eval();

    assert_eq!(output, vec!["[      USSR] [275             ]".to_string()]);
}

#[test]
fn eval_gsub_then_print_uses_updated_line() {
    let lexer = Lexer::new(r#"{ gsub(/USA/, "United States"); print }"#);
    let mut parser = Parser::new(lexer);
    let program = parser.parse_program().expect("the script parses");
    let mut evaluator = Evaluator::new(program, vec!["USA 3615 237 North America".to_string()]);

    let output = evaluator.eval();

    assert_eq!(output, vec!["United States 3615 237 North America".to_string()]);
}

#[test]
fn eval_print_length_and_line() {
    let lexer = Lexer::new(r#"{ print length, $0 }"#);
    let mut parser = Parser::new(lexer);
    let program = parser.parse_program().expect("the script parses");
    let mut evaluator = Evaluator::new(program, vec!["USSR 8649 275 Asia".to_string()]);

    let output = evaluator.eval();

    assert_eq!(output, vec!["18 USSR 8649 275 Asia".to_string()]);
}

#[test]
fn eval_field_assignment_with_substr_then_print() {
    let lexer = Lexer::new(r#"{ $1 = substr($1, 1, 3); print }"#);
    let mut parser = Parser::new(lexer);
    let program = parser.parse_program().expect("the script parses");
    let mut evaluator = Evaluator::new(program, vec!["Canada\t3852\t25\tNorth America".to_string()]);

    let output = evaluator.eval();

    assert_eq!(output, vec!["Can 3852 25 North America".to_string()]);
}

#[test]
fn eval_assignment_with_concatenation() {
    let lexer = Lexer::new(r#"{ s = s " " substr($1, 1, 3) } END { print s }"#);
    let mut parser = Parser::new(lexer);
    let program = parser.parse_program().expect("the script parses");
    let mut evaluator = Evaluator::new(
        program,
        vec![
            "USSR\t8649\t275\tAsia".to_string(),
            "Canada\t3852\t25\tNorth America".to_string(),
        ],
    );

    let output = evaluator.eval();

    assert_eq!(output, vec![" USS Can".to_string()]);
}

#[test]
fn eval_chained_assignment_sets_fs_and_ofs() {
    let lexer = Lexer::new(r#"BEGIN { FS = OFS = "\t" } { $4 = "NA"; print }"#);
    let mut parser = Parser::new(lexer);
    let program = parser.parse_program().expect("the script parses");
    let mut evaluator = Evaluator::new(program, vec!["Canada\t3852\t25\tNorth America".to_string()]);

    let output = evaluator.eval();

    assert_eq!(output, vec!["Canada\t3852\t25\tNA".to_string()]);
}
