use rawk_core::{Action, Expression, Lexer, Number, Parser, Rule, Statement, TokenKind};

/// The value of a number literal of the tree.
fn number(expression: &Expression) -> f64 {
    match expression {
        Expression::Number(Number::Finite(units)) => *units as f64 / 1e9,
        other => panic!("expected a number, found {:?}", other),
    }
}


#[test]
fn create_parser() {
    let mut parser = Parser::new(Lexer::new("42 == 42"));

    assert_eq!(parser.current_token().literal, "42");
    parser.next_token();
    assert_eq!(parser.current_token().literal, "==");
}

#[test]
fn parse_empty_program() {
    let mut parser = Parser::new(Lexer::new(""));

    let program = parser.parse_program().expect("the script parses");

    assert_eq!(program.len(), 0);
}

#[test]
fn parse_action_without_pattern() {
    let mut parser = Parser::new(Lexer::new("{ print }"));

    let program = parser.parse_program().expect("the script parses");

    assert_eq!(program.len(), 1);
    assert_eq!("{ print }", program.to_string());
}

#[test]
fn parse_action_with_leading_newlines() {
    let mut parser = Parser::new(Lexer::new("\n\n{ print }"));

    let program = parser.parse_program().expect("the script parses");

    assert_eq!(program.len(), 1);
    assert_eq!("{ print }", program.to_string());
}

#[test]
fn parse_begin_block() {
    let mut parser = Parser::new(Lexer::new("BEGIN { print }"));

    let program = parser.parse_program().expect("the script parses");

    assert_eq!(program.len(), 1);
    assert_eq!("BEGIN { print }", program.to_string());
}

#[test]
fn parse_end_block() {
    let mut parser = Parser::new(Lexer::new("END { print 42 }"));

    let program = parser.parse_program().expect("the script parses");

    assert_eq!(program.len(), 1);
    assert_eq!("END { print 42 }", program.to_string());
}

#[test]
fn parse_regex_pattern_action() {
    let mut parser = Parser::new(Lexer::new("/foo/ { print }"));

    let program = parser.parse_program().expect("the script parses");

    assert_eq!(program.len(), 1);
    assert_eq!("/foo/ { print }", program.to_string());
}

#[test]
fn parse_print_infix_expression() {
    let mut parser = Parser::new(Lexer::new("BEGIN { print 1 + 2 }"));

    let program = parser.parse_program().expect("the script parses");
    let mut begin_blocks = program.begin_blocks().iter();
    let rule = begin_blocks.next().expect("expected begin block");

    let statements = match rule {
        Rule::Begin(Action { statements }) => statements,
        _ => panic!("expected begin rule"),
    };

    let exprs = match &statements[0] {
        Statement::Print(expressions) => expressions,
        _ => panic!("expected print statement"),
    };

    match &exprs[0] {
        Expression::Infix {
            left,
            operator,
            right,
        } => {
            assert_eq!(number(left), 1.0);
            assert_eq!(operator.kind, TokenKind::Plus);
            assert_eq!(number(right), 2.0);
        }
        _ => panic!("expected infix expression"),
    }
}

#[test]
fn parse_print_parenthesized_expression() {
    let mut parser = Parser::new(Lexer::new("BEGIN { print (1 + 2) * 3 }"));

    let program = parser.parse_program().expect("the script parses");
    let mut begin_blocks = program.begin_blocks().iter();
    let rule = begin_blocks.next().expect("expected begin block");

    let statements = match rule {
        Rule::Begin(Action { statements }) => statements,
        _ => panic!("expected begin rule"),
    };

    let exprs = match &statements[0] {
        Statement::Print(expressions) => expressions,
        _ => panic!("expected print statement"),
    };

    match &exprs[0] {
        Expression::Infix {
            left,
            operator,
            right,
        } => {
            assert_eq!(operator.kind, TokenKind::Asterisk);
            assert_eq!(number(right), 3.0);
            assert!(matches!(**left, Expression::Infix { .. }));
        }
        _ => panic!("expected infix expression"),
    }
}

#[test]
fn parse_print_multiplication_has_higher_precedence_than_addition() {
    let mut parser = Parser::new(Lexer::new("BEGIN { print 1 + 2 * 3 }"));

    let program = parser.parse_program().expect("the script parses");
    let mut begin_blocks = program.begin_blocks().iter();
    let rule = begin_blocks.next().expect("expected begin block");

    let statements = match rule {
        Rule::Begin(Action { statements }) => statements,
        _ => panic!("expected begin rule"),
    };

    let exprs = match &statements[0] {
        Statement::Print(expressions) => expressions,
        _ => panic!("expected print statement"),
    };

    match &exprs[0] {
        Expression::Infix {
            left,
            operator,
            right,
        } => {
            assert_eq!(operator.kind, TokenKind::Plus);
            assert_eq!(number(left), 1.0);
            match &**right {
                Expression::Infix {
                    operator: right_op, ..
                } => assert_eq!(right_op.kind, TokenKind::Asterisk),
                _ => panic!("expected nested infix expression"),
            }
        }
        _ => panic!("expected infix expression"),
    }
}

#[test]
fn parse_print_power_is_right_associative() {
    let mut parser = Parser::new(Lexer::new("BEGIN { print 2 ^ 3 ^ 2 }"));

    let program = parser.parse_program().expect("the script parses");
    let mut begin_blocks = program.begin_blocks().iter();
    let rule = begin_blocks.next().expect("expected begin block");

    let statements = match rule {
        Rule::Begin(Action { statements }) => statements,
        _ => panic!("expected begin rule"),
    };

    let exprs = match &statements[0] {
        Statement::Print(expressions) => expressions,
        _ => panic!("expected print statement"),
    };

    match &exprs[0] {
        Expression::Infix {
            left,
            operator,
            right,
        } => {
            assert_eq!(operator.kind, TokenKind::Caret);
            assert_eq!(number(left), 2.0);
            match &**right {
                Expression::Infix {
                    operator: right_op, ..
                } => assert_eq!(right_op.kind, TokenKind::Caret),
                _ => panic!("expected nested infix expression"),
            }
        }
        _ => panic!("expected infix expression"),
    }
}

#[test]
fn parse_print_minus_is_left_associative() {
    let mut parser = Parser::new(Lexer::new("BEGIN { print 5 - 3 - 1 }"));

    let program = parser.parse_program().expect("the script parses");
    let mut begin_blocks = program.begin_blocks().iter();
    let rule = begin_blocks.next().expect("expected begin block");

    let statements = match rule {
        Rule::Begin(Action { statements }) => statements,
        _ => panic!("expected begin rule"),
    };

    let exprs = match &statements[0] {
        Statement::Print(expressions) => expressions,
        _ => panic!("expected print statement"),
    };

    match &exprs[0] {
        Expression::Infix {
            left,
            operator,
            right,
        } => {
            assert_eq!(operator.kind, TokenKind::Minus);
            match &**left {
                Expression::Infix {
                    operator: left_op, ..
                } => assert_eq!(left_op.kind, TokenKind::Minus),
                _ => panic!("expected nested infix expression"),
            }
            assert_eq!(number(right), 1.0);
        }
        _ => panic!("expected infix expression"),
    }
}

#[test]
fn parse_print_concatenation() {
    let mut parser = Parser::new(Lexer::new(r#"BEGIN { print "Value:" 42 }"#));

    let program = parser.parse_program().expect("the script parses");
    let mut begin_blocks = program.begin_blocks().iter();
    let rule = begin_blocks.next().expect("expected begin block");

    let statements = match rule {
        Rule::Begin(Action { statements }) => statements,
        _ => panic!("expected begin rule"),
    };

    let exprs = match &statements[0] {
        Statement::Print(expressions) => expressions,
        _ => panic!("expected print statement"),
    };

    assert_eq!(exprs.len(), 1);
    match &exprs[0] {
        Expression::Concatenation { left, right } => {
            assert!(matches!(&**left, Expression::String(s) if s == "Value:"));
            assert_eq!(number(right), 42.0);
        }
        _ => panic!("expected concatenation expression"),
    }
}

#[test]
fn parse_print_field_expression() {
    let mut parser = Parser::new(Lexer::new("{ print $1 }"));

    let program = parser.parse_program().expect("the script parses");
    let mut rules = program.rules().iter();
    let rule = rules.next().expect("expected rule");

    let statements = match rule {
        Rule::Action(Action { statements }) => statements,
        _ => panic!("expected action rule"),
    };

    let exprs = match &statements[0] {
        Statement::Print(expressions) => expressions,
        _ => panic!("expected print statement"),
    };

    match &exprs[0] {
        Expression::Field(inner) => assert_eq!(number(inner), 1.0),
        _ => panic!("expected field expression"),
    }
}

#[test]
fn parse_print_with_commas() {
    let mut parser = Parser::new(Lexer::new(r#"BEGIN { print "Value:", 42, $1 }"#));

    let program = parser.parse_program().expect("the script parses");

    assert_eq!(r#"BEGIN { print "Value:", 42, $1 }"#, program.to_string());
}

#[test]
fn parse_number_of_fields_identifier() {
    let mut parser = Parser::new(Lexer::new(r#"BEGIN { print NF }"#));

    let program = parser.parse_program().expect("the script parses");

    assert_eq!(r#"BEGIN { print NF }"#, program.to_string());
}

#[test]
fn parse_printf_with_format_and_arguments() {
    let mut parser = Parser::new(Lexer::new(r#"{ printf "[%10s] [%-16d]\n", $1, $3 }"#));

    let program = parser.parse_program().expect("the script parses");

    assert_eq!(
        r#"{ printf "[%10s] [%-16d]\n", $1, $3 }"#,
        program.to_string()
    );
}

#[test]
fn parse_add_assignment_and_pre_increment() {
    let mut parser = Parser::new(Lexer::new(r#"/Asia/ { pop += $3; ++n }"#));

    let program = parser.parse_program().expect("the script parses");

    assert_eq!(r#"/Asia/ { pop += $3; ++n }"#, program.to_string());
}

#[test]
fn parse_regex_match_pattern_action() {
    let mut parser = Parser::new(Lexer::new(r#"$4 ~ /Asia/ { print $1 }"#));

    let program = parser.parse_program().expect("the script parses");

    assert_eq!(r#"$4 ~ /Asia/ { print $1 }"#, program.to_string());
}

#[test]
fn parse_print_with_line_continuation_after_comma() {
    let mut parser = Parser::new(Lexer::new(
        "END { print \"population of\", n,\\\n\"Asian countries in millions is\", pop }",
    ));

    let program = parser.parse_program().expect("the script parses");

    assert_eq!(
        "END { print \"population of\", n, \"Asian countries in millions is\", pop }",
        program.to_string()
    );
}

#[test]
fn parse_gsub_statement() {
    let mut parser = Parser::new(Lexer::new(r#"{ gsub(/USA/, "United States"); print }"#));

    let program = parser.parse_program().expect("the script parses");

    assert_eq!(
        r#"{ gsub(/USA/, "United States"); print }"#,
        program.to_string()
    );
}

#[test]
fn parse_print_length_builtin_expression() {
    let mut parser = Parser::new(Lexer::new(r#"{ print length, $0 }"#));

    let program = parser.parse_program().expect("the script parses");

    assert_eq!(r#"{ print length, $0 }"#, program.to_string());
}

#[test]
fn parse_length_expression_as_rule_pattern() {
    let mut parser = Parser::new(Lexer::new(
        r#"length($1) > max { max = length($1); name = $1 } END { print name }"#,
    ));

    let program = parser.parse_program().expect("the script parses");

    assert_eq!(
        r#"length($1) > max { max = length($1); name = $1 } END { print name }"#,
        program.to_string()
    );
}

#[test]
fn parse_field_assignment_with_substr() {
    let mut parser = Parser::new(Lexer::new(r#"{ $1 = substr($1, 1, 3); print }"#));

    let program = parser.parse_program().expect("the script parses");

    assert_eq!(r#"{ $1 = substr($1, 1, 3); print }"#, program.to_string());
}

#[test]
fn parse_assignment_with_concatenation_and_substr() {
    let mut parser = Parser::new(Lexer::new(
        r#"{ s = s " " substr($1, 1, 3) }"#,
    ));

    let program = parser.parse_program().expect("the script parses");

    assert_eq!(r#"{ s = s " " substr($1, 1, 3) }"#, program.to_string());
}

#[test]
fn parse_field_divide_assignment() {
    let mut parser = Parser::new(Lexer::new(r#"{ $2 /= 1000; print }"#));

    let program = parser.parse_program().expect("the script parses");

    assert_eq!(r#"{ $2 = $2 / 1000; print }"#, program.to_string());
}

#[test]
fn parse_chained_assignment() {
    let mut parser = Parser::new(Lexer::new(r#"BEGIN { FS = OFS = "\t" }"#));

    let program = parser.parse_program().expect("the script parses");

    assert_eq!(r#"BEGIN { FS = OFS = "\t" }"#, program.to_string());
}

#[test]
fn parse_if_statement_with_block() {
    let mut parser = Parser::new(Lexer::new(
        r#"{ if (maxpop < $3) { maxpop = $3; country = $1 } }"#,
    ));

    let program = parser.parse_program().expect("the script parses");

    assert_eq!(
        r#"{ if (maxpop < $3) { maxpop = $3; country = $1 } }"#,
        program.to_string()
    );
}

#[test]
fn parse_while_with_post_increment() {
    let mut parser = Parser::new(Lexer::new(
        r#"{ i = 1; while (i <= NF) { print $i; i++ } }"#,
    ));

    let program = parser.parse_program().expect("the script parses");

    assert_eq!(
        r#"{ i = 1; while (i <= NF) { print $i; i++ } }"#,
        program.to_string()
    );
}

#[test]
fn parse_for_loop_with_single_body_statement() {
    let mut parser = Parser::new(Lexer::new(
        r#"{ for (i = 1; i <= NF; i++) print $i }"#,
    ));

    let program = parser.parse_program().expect("the script parses");

    assert_eq!(
        r#"{ for (i = 1; i <= NF; i++) { print $i } }"#,
        program.to_string()
    );
}

#[test]
fn parse_if_with_single_statement_body() {
    let mut parser = Parser::new(Lexer::new(
        r#"END { if (NR < 10) print FILENAME " has only " NR " lines" }"#,
    ));

    let program = parser.parse_program().expect("the script parses");

    assert_eq!(
        r#"END { if (NR < 10) { print FILENAME " has only " NR " lines" } }"#,
        program.to_string()
    );
}

#[test]
fn parse_exit_statement() {
    let mut parser = Parser::new(Lexer::new(r#"NR >= 10 { exit }"#));

    let program = parser.parse_program().expect("the script parses");

    assert_eq!(r#"NR >= 10 { exit }"#, program.to_string());
}

#[test]
fn parse_array_add_assignment_and_access() {
    let mut parser = Parser::new(Lexer::new(
        r#"/Asia/ { pop["Asia"] += $3 } END { print pop["Asia"] }"#,
    ));

    let program = parser.parse_program().expect("the script parses");

    assert_eq!(
        r#"/Asia/ { pop["Asia"] += $3 } END { print pop["Asia"] }"#,
        program.to_string()
    );
}
