use rawk_core::parser::parse_script;
use rawk_core::token::{lookup_functions, lookup_keyword};
use rawk_core::{
    Awk, Expression, Lexer, ParseError, Parser, Rule, Statement, Token, TokenKind,
};

fn tokens(script: &str, allow_regex: bool) -> Vec<(TokenKind, String, usize)> {
    let mut lexer = Lexer::new(script);
    lexer.set_allow_regex(allow_regex);
    let mut out = Vec::new();
    loop {
        let token = lexer.next_token();
        let done = token.kind == TokenKind::Eof;
        out.push((token.kind, token.literal, token.offset));
        if done {
            return out;
        }
    }
}

fn kinds(script: &str) -> Vec<TokenKind> {
    tokens(script, false).into_iter().map(|t| t.0).collect()
}

fn error_of(script: &str) -> ParseError {
    match parse_script(script) {
        Ok(program) => panic!("parsed as {}", program.to_string()),
        Err(error) => error,
    }
}

#[test]
fn the_lexer_skips_blanks_and_comments_but_no_newline() {
    assert_eq!(
        tokens(" \t\r x # a comment ; y\n z", false),
        vec![
            (TokenKind::Identifier, "x".to_string(), 4),
            (TokenKind::NewLine, "<newline>".to_string(), 21),
            (TokenKind::Identifier, "z".to_string(), 23),
            (TokenKind::Eof, "".to_string(), 24),
        ]
    );
}

#[test]
fn the_lexer_gives_eof_for_ever() {
    let mut lexer = Lexer::new("x");
    assert_eq!(lexer.next_token().kind, TokenKind::Identifier);
    for _ in 0..3 {
        let token = lexer.next_token();
        assert_eq!((token.kind, token.literal.as_str(), token.offset), (TokenKind::Eof, "", 1));
    }
}

#[test]
fn a_backslash_before_a_newline_is_a_continuation() {
    assert_eq!(kinds("a \\\n b"), vec![
        TokenKind::Identifier,
        TokenKind::NewLine,
        TokenKind::Identifier,
        TokenKind::Eof,
    ]);
    assert_eq!(kinds("a \\ b"), vec![
        TokenKind::Identifier,
        TokenKind::Illegal,
        TokenKind::Identifier,
        TokenKind::Eof,
    ]);
}

#[test]
fn the_lexer_reads_numbers() {
    let read: Vec<(TokenKind, String)> =
        tokens("123 42.0 .75 0.001 7. 0x1F 0Xff 0x 0x12345678901234567", false)
            .into_iter()
            .map(|t| (t.0, t.1))
            .collect();
    assert_eq!(read, vec![
        (TokenKind::Number, "123".to_string()),
        (TokenKind::Number, "42.0".to_string()),
        (TokenKind::Number, ".75".to_string()),
        (TokenKind::Number, "0.001".to_string()),
        (TokenKind::Number, "7.".to_string()),
        (TokenKind::Number, "0x1F".to_string()),
        (TokenKind::Number, "0Xff".to_string()),
        (TokenKind::Illegal, "<illegal>".to_string()),
        (TokenKind::Illegal, "<illegal>".to_string()),
        (TokenKind::Eof, "".to_string()),
    ]);
    assert_eq!(kinds("."), vec![TokenKind::Illegal, TokenKind::Eof]);
}

#[test]
fn the_lexer_keeps_the_escapes_of_a_string() {
    assert_eq!(
        tokens(r#""a\"b\n" "é" """#, false),
        vec![
            (TokenKind::String, r#"a\"b\n"#.to_string(), 0),
            (TokenKind::String, "é".to_string(), 9),
            (TokenKind::String, "".to_string(), 13),
            (TokenKind::Eof, "".to_string(), 15),
        ]
    );
    assert_eq!(kinds("\"open"), vec![TokenKind::Illegal, TokenKind::Eof]);
    assert_eq!(kinds("\"open\\"), vec![TokenKind::Illegal, TokenKind::Eof]);
}

#[test]
fn a_slash_opens_a_regex_only_where_one_is_allowed() {
    assert_eq!(
        tokens("/a b\\/c/", true),
        vec![(TokenKind::Regex, "a b\\/c".to_string(), 0), (TokenKind::Eof, "".to_string(), 8)]
    );
    assert_eq!(kinds("/a/"), vec![
        TokenKind::Division,
        TokenKind::Identifier,
        TokenKind::Division,
        TokenKind::Eof,
    ]);
    assert_eq!(tokens("/open", true)[0].0, TokenKind::Illegal);
    assert_eq!(tokens("/= 2", false)[0].0, TokenKind::DivideAssign);
}

#[test]
fn words_are_keywords_functions_or_identifiers() {
    assert_eq!(kinds("BEGIN begin length lengthy _x x1 print printf"), vec![
        TokenKind::Begin,
        TokenKind::Identifier,
        TokenKind::Length,
        TokenKind::Identifier,
        TokenKind::Identifier,
        TokenKind::Identifier,
        TokenKind::Print,
        TokenKind::Printf,
        TokenKind::Eof,
    ]);
    assert_eq!(kinds(
        "atan2 close cos exp gsub index int length log match rand sin split sprintf sqrt srand \
         sub substr system tolower toupper"
    ), vec![
        TokenKind::Atan2,
        TokenKind::Close,
        TokenKind::Cos,
        TokenKind::Exp,
        TokenKind::Gsub,
        TokenKind::Index,
        TokenKind::Int,
        TokenKind::Length,
        TokenKind::Log,
        TokenKind::Match,
        TokenKind::Rand,
        TokenKind::Sin,
        TokenKind::Split,
        TokenKind::Sprintf,
        TokenKind::Sqrt,
        TokenKind::Srand,
        TokenKind::Sub,
        TokenKind::Substr,
        TokenKind::System,
        TokenKind::ToLower,
        TokenKind::ToUpper,
        TokenKind::Eof,
    ]);
}

#[test]
fn the_tables_of_reserved_words_answer_for_single_words() {
    assert_eq!(
        lookup_keyword("while"),
        Some(Token { kind: TokenKind::While, literal: "while".to_string(), offset: 0 })
    );
    assert_eq!(lookup_keyword("length"), None);
    assert_eq!(lookup_keyword("While"), None);
    assert_eq!(
        lookup_functions("substr"),
        Some(Token { kind: TokenKind::Substr, literal: "substr".to_string(), offset: 0 })
    );
    assert_eq!(lookup_functions("while"), None);
    assert_eq!(Token::new(TokenKind::Plus, "+", 3).duplicate(), Token::new(TokenKind::Plus, "+", 3));
}

#[test]
fn what_is_no_token_is_illegal() {
    assert_eq!(kinds("a & b @ ` '"), vec![
        TokenKind::Identifier,
        TokenKind::Illegal,
        TokenKind::Identifier,
        TokenKind::Illegal,
        TokenKind::Illegal,
        TokenKind::Illegal,
        TokenKind::Eof,
    ]);
}

#[test]
fn the_parser_says_what_it_looked_for() {
    let cases = [
        ("}", 0, "expected a rule"),
        ("{ print }\n)", 10, "expected a rule"),
        ("{ + }", 2, "expected a statement"),
        ("{ print ) }", 8, "expected an expression"),
        ("{ x = }", 6, "expected an expression"),
        ("{ x = @ }", 6, "expected an expression"),
        ("{ ++ 1 }", 5, "expected an identifier"),
        ("{ x }", 4, "expected an assignment operator"),
        ("{ $1 3 }", 5, "expected an assignment operator"),
        ("{ a[1] ++ }", 7, "expected an assignment operator"),
        ("BEGIN print", 6, "expected `{`"),
        ("{ if x }", 5, "expected `(`"),
        ("{ print substr x }", 15, "expected `(`"),
        ("{ if (x { } }", 8, "expected `)`"),
        ("{ print (1 + 2 }", 15, "expected `)`"),
        ("{ print length(x }", 17, "expected `)`"),
        ("{ gsub(/a/, \"b\", $1) }", 15, "expected `)`"),
        ("{ x[1 = 2 }", 10, "expected `]`"),
        ("{ print a[1 }", 12, "expected `]`"),
        ("{ gsub(/a/) }", 10, "expected `,`"),
        ("{ print substr(x) }", 16, "expected `,`"),
        ("{ for (i = 0, i < 3; i++) print }", 12, "expected `;`"),
        ("{ for (i = 0; i < 3) print }", 19, "expected `;`"),
    ];
    for (script, offset, message) in cases {
        let error = error_of(script);
        assert_eq!((error.offset, error.message.as_str()), (offset, message), "{script}");
    }
    assert!(Awk::new("{ print ").is_ok());
    assert!(Awk::new("").is_ok());
    assert!(Awk::new("{").is_ok());
}

#[test]
fn the_parser_reads_one_token_ahead() {
    let mut parser = Parser::new(Lexer::new("/re/ { print }"));
    assert_eq!(parser.current_token().kind, TokenKind::Regex);
    assert_eq!(parser.current_token().literal, "re");
    parser.next_token();
    assert_eq!(parser.current_token().kind, TokenKind::LeftCurlyBrace);
    assert_eq!(parser.current_token().offset, 5);
}

#[test]
fn a_program_is_written_as_a_script() {
    let cases = [
        ("BEGIN{print 1+2*3}", "BEGIN { print 1 + (2 * 3) }"),
        ("{ print (1 + 2) * 3 }", "{ print (1 + 2) * 3 }"),
        ("{ print 2 ^ 3 ^ 2 }", "{ print 2 ^ (3 ^ 2) }"),
        ("{ print 5 - 3 - 1 }", "{ print (5 - 3) - 1 }"),
        ("{ print $NF, $(NF-1), $$0 }", "{ print $NF, $(NF - 1), $$0 }"),
        ("{ print a b c }", "{ print a b c }"),
        ("{ print a (b c) }", "{ print a (b c) }"),
        ("{ print a b + c }", "{ print a (b + c) }"),
        ("{ print length($0) length }", "{ print length($0) length }"),
        ("{ print substr($1,2) substr($1, 2, 3) }", "{ print substr($1, 2) substr($1, 2, 3) }"),
        ("/a/,/b/", "/a/, /b/"),
        ("$1 == 1, $1 == 3 { print }", "$1 == 1, $1 == 3 { print }"),
        ("$1 ~ /x/ && $2 !~ \"y\" || z", "(($1 ~ /x/) && ($2 !~ \"y\")) || z"),
        ("{ a = b = 1; c += 2; ++d; e++; f[1] = 2; f[\"k\"] += 3 }", "{ a = b = 1; c += 2; ++d; e++; f[1] = 2; f[\"k\"] += 3 }"),
        ("{ $1 = 1; $(2) ^= 3; $NF -= 1 }", "{ $1 = 1; $2 = $2 ^ 3; $NF = $NF - 1 }"),
        ("{ if (x) print; while (y) y++ }", "{ if (x) { print }; while (y) { y++ } }"),
        ("{ for (i = 0; i < 3; i++) { } }", "{ for (i = 0; i < 3; i++) { } }"),
        ("{ printf \"%d\\n\", 1 ; printf }", "{ printf \"%d\\n\", 1; printf }"),
        ("{ exit }\n\n END{}\nBEGIN { }", "BEGIN { } { exit } END { }"),
        ("{ print 1.50, 0x10, .5 }", "{ print 1.5, 16, 0.5 }"),
        ("{ gsub ( /a+/ , \"b\" ) }", "{ gsub(/a+/, \"b\") }"),
    ];
    for (script, text) in cases {
        let program = parse_script(script).expect(script);
        assert_eq!(program.to_string(), text, "{script}");
    }
}

#[test]
fn the_text_of_a_program_parses_to_the_same_text() {
    let scripts = [
        "{ print }",
        "BEGIN { print \"Value:\", 42, $1 }",
        "{ printf \"[%10s] [%-16d]\\n\", $1, $3 }",
        "/Asia/ { pop += $3; ++n }\nEND { print \"population of\", n,\\\n\"Asian countries in millions is\", pop }",
        "$4 ~ /Asia/ { print $1 }",
        "{ gsub(/USA/, \"United States\"); print }",
        "length($1) > max { max = length($1); name = $1 } END { print name }",
        "{ $1 = substr($1, 1, 3); print }",
        "{ s = s \" \" substr($1, 1, 3) }",
        "{ $2 /= 1000; print }",
        "BEGIN { FS = OFS = \"\\t\" }",
        "{ if (maxpop < $3) { maxpop = $3; country = $1 } }",
        "{ i = 1; while (i <= NF) { print $i; i++ } }",
        "{ for (i = 1; i <= NF; i++) print $i }",
        "END { if (NR < 10) print FILENAME \" has only \" NR \" lines\" }",
        "NR >= 10 { exit }",
        "/Asia/ { pop[\"Asia\"] += $3 } END { print pop[\"Asia\"] }",
        "/START/,/END/ { print 1 + 2 * 3 - (4 - 5) ^ 2 ^ 3 / 7 % 2 }",
        "$1 == 1 || $2 ~ /x/ && $3 !~ \"y\" { print a b (c d) e }",
        "{ print 0.1234567, 1234567.25, 0x1F, .5, 7. }",
        "{ x[$1] = $(NF - 1) $NF; print x[1] > 2 }",
        "{ print \" \" }",
        "{ print \" \", \"a\", \" \" }",
        "{ print length }",
        "{ print length, $0 }",
        "length > 3 { n = n + length; if (length) print length \"x\" }",
    ];
    for script in scripts {
        let first = parse_script(script).expect(script);
        let text = first.to_string();
        let second = parse_script(&text).expect(&text);
        assert!(second.same_tree(&first), "{script}");
        assert_eq!(second.to_string(), text, "{script}");
    }
}

#[test]
fn trees_are_compared_without_their_offsets() {
    let spaced = parse_script("{ print 1 + 2 }").expect("parses");
    let dense = parse_script("{print 1+2}").expect("parses");
    let other = parse_script("{ print 1 - 2 }").expect("parses");
    assert!(spaced.same_tree(&dense));
    assert!(spaced != dense);
    assert!(!spaced.same_tree(&other));
    assert!(!spaced.same_tree(&parse_script("BEGIN { print 1 + 2 }").expect("parses")));
    assert!(!spaced.same_tree(&parse_script("{ print 1 + 2 } END { }").expect("parses")));
    assert!(!spaced.same_tree(&parse_script("{ print 1 + 2; exit }").expect("parses")));
    assert!(!spaced.same_tree(&parse_script("{ print 1 + 2.5 }").expect("parses")));
}

#[test]
fn after_a_program_is_parsed_the_token_ahead_is_the_end() {
    let mut parser = Parser::new(Lexer::new("BEGIN { x = 1 }\n/a/ { print }\n"));
    assert!(parser.parse_program().is_ok());
    assert_eq!(parser.current_token().kind, TokenKind::Eof);
}

fn operator_of(expression: &Expression) -> (TokenKind, &str, usize) {
    match expression {
        Expression::Infix { operator, .. } => {
            (operator.kind, operator.literal.as_str(), operator.offset)
        },
        other => panic!("no operator in {other:?}"),
    }
}

#[test]
fn an_operator_token_keeps_its_text_and_its_place() {
    let script = "$1 ~ /a/, NR >= 10 { x = a  +  b; $2 /= 1000; print x * 2 }";
    let program = parse_script(script).expect(script);
    let rule = &program.rules()[0];
    let (pattern, statements) = match rule {
        Rule::PatternAction { pattern: Some(pattern), action: Some(action) } => {
            (pattern, &action.statements)
        },
        other => panic!("no pattern with an action: {other:?}"),
    };
    assert_eq!(operator_of(pattern), (TokenKind::Comma, ",", 8));
    match pattern {
        Expression::Infix { left, right, .. } => {
            assert_eq!(operator_of(left), (TokenKind::Tilde, "~", 3));
            assert_eq!(operator_of(right), (TokenKind::GreaterThanOrEqual, ">=", 13));
        },
        other => panic!("no range: {other:?}"),
    }
    match &statements[0] {
        Statement::Assignment { value, .. } => {
            assert_eq!(operator_of(value), (TokenKind::Plus, "+", 28));
        },
        other => panic!("no assignment: {other:?}"),
    }
    match &statements[1] {
        Statement::FieldAssignment { value, .. } => {
            assert_eq!(operator_of(value), (TokenKind::Division, "/", 37));
        },
        other => panic!("no field assignment: {other:?}"),
    }
    match &statements[2] {
        Statement::Print(items) => {
            assert_eq!(operator_of(&items[0]), (TokenKind::Asterisk, "*", 54));
        },
        other => panic!("no print: {other:?}"),
    }
    let text: Vec<char> = script.chars().collect();
    for (at, what) in [(8, ","), (3, "~"), (13, ">="), (28, "+"), (37, "/"), (54, "*")] {
        let found: String = text[at..at + what.chars().count()].iter().collect();
        assert_eq!(found, what);
    }
}
