use rawk_core::lexer::{is_ascii_alphabetic, is_digit, is_whitespace};
use rawk_core::{Lexer, TokenKind};


#[test]
fn next_left_curly_brace_token() {
    let expected = (TokenKind::LeftCurlyBrace, "{");
    let input = "{";
    let mut lexer = Lexer::new(input);

    let token = lexer.next_token();

    assert_eq!(expected, (token.kind, token.literal.as_str()));
}

#[test]
fn next_right_curly_brace_token() {
    let expected = (TokenKind::RightCurlyBrace, "}");
    let input = "}";
    let mut lexer = Lexer::new(input);

    let token = lexer.next_token();

    assert_eq!(expected, (token.kind, token.literal.as_str()));
}

#[test]
fn next_pipe_token() {
    let expected = (TokenKind::Pipe, "|");
    let input = "|";
    let mut lexer = Lexer::new(input);

    let token = lexer.next_token();

    assert_eq!(expected, (token.kind, token.literal.as_str()));
}

#[test]
fn next_one_character_token() {
    let input = "{}()[],;\n+-*/%^!><|?:~$=";
    let mut lexer = Lexer::new(input);
    let expected_tokens = vec![
        (TokenKind::LeftCurlyBrace, "{"),
        (TokenKind::RightCurlyBrace, "}"),
        (TokenKind::LeftParen, "("),
        (TokenKind::RightParen, ")"),
        (TokenKind::LeftSquareBracket, "["),
        (TokenKind::RightSquareBracket, "]"),
        (TokenKind::Comma, ","),
        (TokenKind::Semicolon, ";"),
        (TokenKind::NewLine, "<newline>"),
        (TokenKind::Plus, "+"),
        (TokenKind::Minus, "-"),
        (TokenKind::Asterisk, "*"),
        (TokenKind::Division, "/"),
        (TokenKind::Percent, "%"),
        (TokenKind::Caret, "^"),
        (TokenKind::ExclamationMark, "!"),
        (TokenKind::GreaterThan, ">"),
        (TokenKind::LessThan, "<"),
        (TokenKind::Pipe, "|"),
        (TokenKind::QuestionMark, "?"),
        (TokenKind::Colon, ":"),
        (TokenKind::Tilde, "~"),
        (TokenKind::DollarSign, "$"),
        (TokenKind::Assign, "="),
        (TokenKind::Eof, ""),
    ];

    for expected in expected_tokens {
        let token = lexer.next_token();
        assert_eq!(expected, (token.kind, token.literal.as_str()));
    }
}

#[test]
fn next_while_token() {
    let expected = (TokenKind::While, "while");
    let input = "while";
    let mut lexer = Lexer::new(input);

    let token = lexer.next_token();

    assert_eq!(expected, (token.kind, token.literal.as_str()));
}

#[test]
fn next_identifier_token() {
    let input = "BEGIN END break continue delete do else exit for function if in next print printf return while";
    let mut lexer = Lexer::new(input);

    let expected_tokens = vec![
        (TokenKind::Begin, "BEGIN"),
        (TokenKind::End, "END"),
        (TokenKind::Break, "break"),
        (TokenKind::Continue, "continue"),
        (TokenKind::Delete, "delete"),
        (TokenKind::Do, "do"),
        (TokenKind::Else, "else"),
        (TokenKind::Exit, "exit"),
        (TokenKind::For, "for"),
        (TokenKind::Function, "function"),
        (TokenKind::If, "if"),
        (TokenKind::In, "in"),
        (TokenKind::Next, "next"),
        (TokenKind::Print, "print"),
        (TokenKind::Printf, "printf"),
        (TokenKind::Return, "return"),
        (TokenKind::While, "while"),
        (TokenKind::Eof, ""),
    ];

    for expected in expected_tokens {
        let token = lexer.next_token();
        assert_eq!(expected, (token.kind, token.literal.as_str()));
    }
}

#[test]
fn next_number_token() {
    let input = "123 4567 890 42.0 .75 0.001";
    let mut lexer = Lexer::new(input);

    let expected_tokens = vec![
        (TokenKind::Number, "123"),
        (TokenKind::Number, "4567"),
        (TokenKind::Number, "890"),
        (TokenKind::Number, "42.0"),
        (TokenKind::Number, ".75"),
        (TokenKind::Number, "0.001"),
        (TokenKind::Eof, ""),
    ];

    for expected in expected_tokens {
        let token = lexer.next_token();
        assert_eq!(expected, (token.kind, token.literal.as_str()));
    }
}

#[test]
fn next_or_token() {
    let expected = (TokenKind::Or, "||");
    let input = "||";
    let mut lexer = Lexer::new(input);

    let token = lexer.next_token();

    assert_eq!(expected, (token.kind, token.literal.as_str()));
}

#[test]
fn next_two_character_token() {
    let input = "+= -= *= /= %= ^= || && !~ == <= >= != ++ -- >>";
    let mut lexer = Lexer::new(input);

    let expected_tokens = vec![
        (TokenKind::AddAssign, "+="),
        (TokenKind::SubtractAssign, "-="),
        (TokenKind::MultiplyAssign, "*="),
        (TokenKind::DivideAssign, "/="),
        (TokenKind::ModuloAssign, "%="),
        (TokenKind::PowerAssign, "^="),
        (TokenKind::Or, "||"),
        (TokenKind::And, "&&"),
        (TokenKind::NoMatch, "!~"),
        (TokenKind::Equal, "=="),
        (TokenKind::LessThanOrEqual, "<="),
        (TokenKind::GreaterThanOrEqual, ">="),
        (TokenKind::NotEqual, "!="),
        (TokenKind::Increment, "++"),
        (TokenKind::Decrement, "--"),
        (TokenKind::Append, ">>"),
        (TokenKind::Eof, ""),
    ];

    for expected in expected_tokens {
        let token = lexer.next_token();
        assert_eq!(expected, (token.kind, token.literal.as_str()));
    }
}

#[test]
fn is_ascii_alphabetic_lowercase() {
    assert!(is_ascii_alphabetic(Some('a')));
    assert!(is_ascii_alphabetic(Some('z')));
    assert!(is_ascii_alphabetic(Some('m')));
}

#[test]
fn is_ascii_alphabetic_uppercase() {
    assert!(is_ascii_alphabetic(Some('A')));
    assert!(is_ascii_alphabetic(Some('Z')));
    assert!(is_ascii_alphabetic(Some('M')));
}

#[test]
fn is_ascii_alphabetic_digits() {
    assert!(!is_ascii_alphabetic(Some('0')));
    assert!(!is_ascii_alphabetic(Some('5')));
    assert!(!is_ascii_alphabetic(Some('9')));
}

#[test]
fn is_ascii_alphabetic_special_chars() {
    assert!(!is_ascii_alphabetic(Some('!')));
    assert!(!is_ascii_alphabetic(Some(' ')));
    assert!(!is_ascii_alphabetic(Some('{')));
    assert!(!is_ascii_alphabetic(Some('=')));
}

#[test]
fn is_ascii_alphabetic_none() {
    assert!(!is_ascii_alphabetic(None));
}

#[test]
fn is_whitespace_space() {
    assert!(is_whitespace(Some(' ')));
}

#[test]
fn is_whitespace_special_chars() {
    assert!(!is_whitespace(Some('!')));
    assert!(!is_whitespace(Some('{')));
    assert!(!is_whitespace(Some('=')));
}

#[test]
fn is_whitespace_none() {
    assert!(!is_whitespace(None));
}

#[test]
fn is_digit_valid() {
    assert!(is_digit(Some('0')));
    assert!(is_digit(Some('5')));
    assert!(is_digit(Some('9')));
}

#[test]
fn is_digit_invalid() {
    assert!(!is_digit(Some('a')));
    assert!(!is_digit(Some('z')));
    assert!(!is_digit(Some('A')));
    assert!(!is_digit(Some('Z')));
    assert!(!is_digit(Some('!')));
    assert!(!is_digit(Some(' ')));
    assert!(!is_digit(Some('{')));
    assert!(!is_digit(Some('=')));
}

#[test]
fn is_digit_none() {
    assert!(!is_digit(None));
}
