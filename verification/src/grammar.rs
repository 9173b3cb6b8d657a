//! The grammar: which program a script stands for.
//!
//! The functions of this module read a script as the parser does, one token
//! ahead, and say which tree each construct stands for and where the parser
//! stands afterwards. They are the specification of the [`crate::Parser`].
//!
//! A parse state is worth the number of characters that the lexer has not
//! read, and one more if the token ahead is not `Eof`. The grammar goes on
//! after a construct only where the state is worth no more than before it
//! ([`within`]); the parser always meets this, since the lexer only goes
//! forward.

use vstd::prelude::*;
use crate::ast::{ActionView, ExpressionView, ProgramView, RuleView, StatementView};
use crate::lexer::{lemma_lex_progress, lex};
use crate::number::{clamp_units, Number, SCALE};
use crate::numeral::to_number;
use crate::token::{TokenKind, TokenView};

verus! {

/// What the parser looked for when it gave up.
#[derive(Debug, Clone, Copy, PartialEq, Eq, Structural)]
pub enum Expected {
    Rule,
    Statement,
    Expression,
    Identifier,
    AssignmentOperator,
    LeftBrace,
    LeftParen,
    RightParen,
    RightBracket,
    Comma,
    Semicolon,
    /// The parser could not go on: the state is worth more than before.
    Progress,
}

/// The message of an error, by what the parser looked for.
pub open spec fn expected_text(what: Expected) -> Seq<char> {
    match what {
        Expected::Rule => "expected a rule"@,
        Expected::Statement => "expected a statement"@,
        Expected::Expression => "expected an expression"@,
        Expected::Identifier => "expected an identifier"@,
        Expected::AssignmentOperator => "expected an assignment operator"@,
        Expected::LeftBrace => "expected `{`"@,
        Expected::LeftParen => "expected `(`"@,
        Expected::RightParen => "expected `)`"@,
        Expected::RightBracket => "expected `]`"@,
        Expected::Comma => "expected `,`"@,
        Expected::Semicolon => "expected `;`"@,
        Expected::Progress => "the parser cannot go on"@,
    }
}

/// What a [`crate::parser::ParseError`] stands for.
pub struct ParseErrorView {
    /// The offset of the token that the parser could not take.
    pub offset: nat,
    /// What the parser looked for.
    pub message: Seq<char>,
}

/// The state of the parser: the position of the lexer, and the token ahead.
pub struct PState {
    pub position: int,
    pub current: TokenView,
}

/// What the grammar gives for a construct: its tree and the state after it,
/// or the error.
pub type PResult<V> = Result<(V, PState), ParseErrorView>;

/// What a state is worth: the characters that are not read yet, and one more
/// if the token ahead is not `Eof`.
pub open spec fn measure(input: Seq<char>, st: PState) -> nat {
    (if 0 <= st.position <= input.len() {
        input.len() - st.position
    } else {
        0
    }) as nat + if st.current.kind == TokenKind::Eof {
        0nat
    } else {
        1nat
    }
}

/// The state after the lexer, standing at `position`, has read one more
/// token.
#[verifier::opaque]
pub open spec fn advance(input: Seq<char>, position: int, allow_regex: bool) -> PState {
    let l = lex(input, position, allow_regex);
    PState {
        position: l.next,
        current: TokenView { kind: l.kind, literal: l.literal, offset: l.start as nat },
    }
}

/// Reading a token never makes a state worth more, and makes it worth less
/// unless the token ahead was `Eof`.
pub proof fn lemma_advance(input: Seq<char>, st: PState, allow_regex: bool)
    ensures
        measure(input, advance(input, st.position, allow_regex)) <= measure(input, st),
        st.current.kind != TokenKind::Eof ==> measure(
            input,
            advance(input, st.position, allow_regex),
        ) < measure(input, st),
{
    reveal(advance);
    if 0 <= st.position <= input.len() {
        lemma_lex_progress(input, st.position, allow_regex);
    }
}

/// The error of a parser that stands at `st` and looked for `what`.
pub open spec fn failure(st: PState, what: Expected) -> ParseErrorView {
    ParseErrorView { offset: st.current.offset, message: expected_text(what) }
}

/// `r`, if its state is worth no more than `from`; else an error.
pub open spec fn within<V>(input: Seq<char>, r: PResult<V>, from: PState) -> PResult<V> {
    match r {
        Ok((v, st)) => if measure(input, st) <= measure(input, from) {
            Ok((v, st))
        } else {
            Err(failure(st, Expected::Progress))
        },
        Err(e) => Err(e),
    }
}

/// The state after the token ahead, if that token is of kind `kind`.
pub open spec fn expect(
    input: Seq<char>,
    st: PState,
    kind: TokenKind,
    what: Expected,
    allow_regex: bool,
) -> Result<PState, ParseErrorView> {
    if st.current.kind == kind {
        Ok(advance(input, st.position, allow_regex))
    } else {
        Err(failure(st, what))
    }
}

/// The binding powers of an infix operator, to its left and to its right.
pub open spec fn infix_precedence(kind: TokenKind) -> Option<(int, int)> {
    match kind {
        TokenKind::Assign => Some((0, 0)),
        TokenKind::Or => Some((1, 2)),
        TokenKind::And => Some((3, 4)),
        TokenKind::Equal
        | TokenKind::NotEqual
        | TokenKind::GreaterThan
        | TokenKind::GreaterThanOrEqual
        | TokenKind::LessThan
        | TokenKind::LessThanOrEqual
        | TokenKind::Tilde
        | TokenKind::NoMatch => Some((5, 6)),
        TokenKind::Plus | TokenKind::Minus => Some((7, 8)),
        TokenKind::Asterisk | TokenKind::Division | TokenKind::Percent => Some((9, 10)),
        TokenKind::Caret => Some((13, 12)),
        _ => None,
    }
}

/// The binding power of concatenation to its left.
pub open spec fn concat_left() -> int {
    6
}

/// The binding power of concatenation to its right.
pub open spec fn concat_right() -> int {
    7
}

/// Whether a token of kind `kind` can start an expression.
pub open spec fn is_expression_start(kind: TokenKind) -> bool {
    kind == TokenKind::String || kind == TokenKind::Regex || kind == TokenKind::Number || kind
        == TokenKind::DollarSign || kind == TokenKind::LeftParen || kind == TokenKind::Identifier
        || kind == TokenKind::Length || kind == TokenKind::Substr
}

/// Whether a token of kind `kind` can start the pattern of a rule.
pub open spec fn is_pattern_start(kind: TokenKind) -> bool {
    kind == TokenKind::String || kind == TokenKind::Regex || kind == TokenKind::Number || kind
        == TokenKind::DollarSign || kind == TokenKind::LeftParen || kind == TokenKind::Identifier
        || kind == TokenKind::Length
}

/// Whether a regex literal may follow the operator `kind`.
pub open spec fn regex_follows(kind: TokenKind) -> bool {
    kind == TokenKind::Tilde || kind == TokenKind::NoMatch || kind == TokenKind::And || kind
        == TokenKind::Or
}

/// The operator that a compound assignment applies.
pub open spec fn compound_operator(kind: TokenKind) -> Option<TokenKind> {
    match kind {
        TokenKind::AddAssign => Some(TokenKind::Plus),
        TokenKind::SubtractAssign => Some(TokenKind::Minus),
        TokenKind::MultiplyAssign => Some(TokenKind::Asterisk),
        TokenKind::DivideAssign => Some(TokenKind::Division),
        TokenKind::ModuloAssign => Some(TokenKind::Percent),
        TokenKind::PowerAssign => Some(TokenKind::Caret),
        _ => None,
    }
}

/// Whether a token of kind `kind` can become the operator of an expression
/// in a tree: an infix operator, the comma of a range pattern, or a compound
/// assignment, which leaves the operator that it applies.
pub open spec fn keeps_place(kind: TokenKind) -> bool {
    infix_precedence(kind) is Some || kind == TokenKind::Comma || compound_operator(kind) is Some
}

/// The value of the hexadecimal digit `c`.
pub open spec fn hex_digit_value(c: char) -> int {
    if '0' <= c && c <= '9' {
        c as int - '0' as int
    } else if 'a' <= c && c <= 'f' {
        c as int - 'a' as int + 10
    } else if 'A' <= c && c <= 'F' {
        c as int - 'A' as int + 10
    } else {
        0
    }
}

/// The value of the hexadecimal digits `s`.
pub open spec fn hex_value(s: Seq<char>) -> int
    decreases s.len(),
{
    if s.len() == 0 {
        0
    } else {
        hex_value(s.drop_last()) * 16 + hex_digit_value(s.last())
    }
}

/// Whether a number literal is written in hexadecimal.
pub open spec fn is_hex_literal(literal: Seq<char>) -> bool {
    literal.len() >= 2 && literal[0] == '0' && (literal[1] == 'x' || literal[1] == 'X')
}

/// The value of a number literal.
pub open spec fn literal_number(literal: Seq<char>) -> Number {
    if is_hex_literal(literal) {
        clamp_units(hex_value(literal.skip(2)) * SCALE)
    } else {
        to_number(literal)
    }
}

/// The state at the first token, from `st` on, that is neither a newline nor
/// a semicolon.
pub open spec fn skip_separators(input: Seq<char>, st: PState) -> PState
    decreases measure(input, st),
{
    if st.current.kind == TokenKind::NewLine || st.current.kind == TokenKind::Semicolon {
        proof {
            lemma_advance(input, st, false);
        }
        skip_separators(input, advance(input, st.position, false))
    } else {
        st
    }
}

/// Skipping separators never makes a state worth more.
pub proof fn lemma_skip_separators(input: Seq<char>, st: PState)
    ensures
        measure(input, skip_separators(input, st)) <= measure(input, st),
    decreases measure(input, st),
{
    if st.current.kind == TokenKind::NewLine || st.current.kind == TokenKind::Semicolon {
        lemma_advance(input, st, false);
        lemma_skip_separators(input, advance(input, st.position, false));
    }
}

/// A primary expression: a literal, a field, an expression in parentheses,
/// a variable or an array element, `length`, or `substr`.
pub open spec fn primary_at(input: Seq<char>, st: PState) -> PResult<ExpressionView>
    decreases measure(input, st), 0int,
{
    let next = advance(input, st.position, false);
    match st.current.kind {
        TokenKind::String => Ok((ExpressionView::String(st.current.literal), next)),
        TokenKind::Regex => Ok((ExpressionView::Regex(st.current.literal), next)),
        TokenKind::Number => Ok(
            (ExpressionView::Number(literal_number(st.current.literal)), next),
        ),
        TokenKind::DollarSign => {
            proof {
                lemma_advance(input, st, false);
            }
            match primary_at(input, next) {
                Ok((inner, st1)) => Ok((ExpressionView::Field(Box::new(inner)), st1)),
                Err(e) => Err(e),
            }
        },
        TokenKind::LeftParen => {
            proof {
                lemma_advance(input, st, false);
            }
            match expression_at(input, next, 0) {
                Ok((inner, st1)) => match expect(
                    input,
                    st1,
                    TokenKind::RightParen,
                    Expected::RightParen,
                    false,
                ) {
                    Ok(st2) => Ok((inner, st2)),
                    Err(e) => Err(e),
                },
                Err(e) => Err(e),
            }
        },
        TokenKind::Identifier => {
            if next.current.kind == TokenKind::LeftSquareBracket {
                let st1 = advance(input, next.position, true);
                proof {
                    lemma_advance(input, st, false);
                    lemma_advance(input, next, true);
                }
                match expression_at(input, st1, 0) {
                    Ok((index, st2)) => match expect(
                        input,
                        st2,
                        TokenKind::RightSquareBracket,
                        Expected::RightBracket,
                        false,
                    ) {
                        Ok(st3) => Ok(
                            (
                                ExpressionView::ArrayAccess {
                                    identifier: st.current.literal,
                                    index: Box::new(index),
                                },
                                st3,
                            ),
                        ),
                        Err(e) => Err(e),
                    },
                    Err(e) => Err(e),
                }
            } else {
                Ok((ExpressionView::Identifier(st.current.literal), next))
            }
        },
        TokenKind::Length => {
            if next.current.kind == TokenKind::LeftParen {
                let st1 = advance(input, next.position, false);
                if st1.current.kind == TokenKind::RightParen {
                    Ok((ExpressionView::Length(None), advance(input, st1.position, false)))
                } else {
                    proof {
                        lemma_advance(input, st, false);
                        lemma_advance(input, next, false);
                    }
                    match expression_at(input, st1, 0) {
                        Ok((inner, st2)) => match expect(
                            input,
                            st2,
                            TokenKind::RightParen,
                            Expected::RightParen,
                            false,
                        ) {
                            Ok(st3) => Ok((ExpressionView::Length(Some(Box::new(inner))), st3)),
                            Err(e) => Err(e),
                        },
                        Err(e) => Err(e),
                    }
                }
            } else {
                Ok((ExpressionView::Length(None), next))
            }
        },
        TokenKind::Substr => {
            proof {
                lemma_advance(input, st, false);
                lemma_advance(input, next, false);
            }
            match expect(input, next, TokenKind::LeftParen, Expected::LeftParen, false) {
                Err(e) => Err(e),
                Ok(st1) => match within(input, expression_at(input, st1, 0), st1) {
                    Err(e) => Err(e),
                    Ok((string, st2)) => match expect(
                        input,
                        st2,
                        TokenKind::Comma,
                        Expected::Comma,
                        false,
                    ) {
                        Err(e) => Err(e),
                        Ok(st3) => {
                            proof {
                                lemma_advance(input, st2, false);
                            }
                            match within(input, expression_at(input, st3, 0), st3) {
                                Err(e) => Err(e),
                                Ok((start, st4)) => {
                                    if st4.current.kind == TokenKind::Comma {
                                        let st5 = advance(input, st4.position, false);
                                        proof {
                                            lemma_advance(input, st4, false);
                                        }
                                        match expression_at(input, st5, 0) {
                                            Err(e) => Err(e),
                                            Ok((length, st6)) => match expect(
                                                input,
                                                st6,
                                                TokenKind::RightParen,
                                                Expected::RightParen,
                                                false,
                                            ) {
                                                Err(e) => Err(e),
                                                Ok(st7) => Ok(
                                                    (
                                                        ExpressionView::Substr {
                                                            string: Box::new(string),
                                                            start: Box::new(start),
                                                            length: Some(Box::new(length)),
                                                        },
                                                        st7,
                                                    ),
                                                ),
                                            },
                                        }
                                    } else {
                                        match expect(
                                            input,
                                            st4,
                                            TokenKind::RightParen,
                                            Expected::RightParen,
                                            false,
                                        ) {
                                            Err(e) => Err(e),
                                            Ok(st5) => Ok(
                                                (
                                                    ExpressionView::Substr {
                                                        string: Box::new(string),
                                                        start: Box::new(start),
                                                        length: None,
                                                    },
                                                    st5,
                                                ),
                                            ),
                                        }
                                    }
                                },
                            }
                        },
                    },
                },
            }
        },
        _ => Err(failure(st, Expected::Expression)),
    }
}

/// An expression whose operators bind at least as strongly as
/// `min_precedence`.
pub open spec fn expression_at(input: Seq<char>, st: PState, min_precedence: int) -> PResult<
    ExpressionView,
>
    decreases measure(input, st), 1int,
{
    match primary_at(input, st) {
        Err(e) => Err(e),
        Ok((left, st1)) => if measure(input, st1) < measure(input, st) {
            operators_at(input, st1, left, min_precedence)
        } else {
            Err(failure(st1, Expected::Progress))
        },
    }
}

/// What follows the expression `left`: operators that bind at least as
/// strongly as `min_precedence`, each with its right operand. Two
/// expressions that stand side by side are concatenated.
pub open spec fn operators_at(
    input: Seq<char>,
    st: PState,
    left: ExpressionView,
    min_precedence: int,
) -> PResult<ExpressionView>
    decreases measure(input, st), 2int,
{
    match infix_precedence(st.current.kind) {
        None => if is_expression_start(st.current.kind) && concat_left() >= min_precedence {
            match expression_at(input, st, concat_right()) {
                Err(e) => Err(e),
                Ok((right, st1)) => if measure(input, st1) < measure(input, st) {
                    operators_at(
                        input,
                        st1,
                        ExpressionView::Concatenation {
                            left: Box::new(left),
                            right: Box::new(right),
                        },
                        min_precedence,
                    )
                } else {
                    Err(failure(st1, Expected::Progress))
                },
            }
        } else {
            Ok((left, st))
        },
        Some((left_precedence, right_precedence)) => if left_precedence < min_precedence {
            Ok((left, st))
        } else {
            let next = advance(input, st.position, regex_follows(st.current.kind));
            proof {
                lemma_advance(input, st, regex_follows(st.current.kind));
            }
            match expression_at(input, next, right_precedence) {
                Err(e) => Err(e),
                Ok((right, st1)) => if measure(input, st1) < measure(input, st) {
                    operators_at(
                        input,
                        st1,
                        ExpressionView::Infix {
                            left: Box::new(left),
                            operator: st.current.kind,
                            right: Box::new(right),
                        },
                        min_precedence,
                    )
                } else {
                    Err(failure(st1, Expected::Progress))
                },
            }
        },
    }
}


/// The expression with a single space in it that a comma between the
/// arguments of `print` leaves in the list.
pub open spec fn separator() -> ExpressionView {
    ExpressionView::String(seq![' '])
}

/// The arguments of `print` or `printf`, up to the end of the statement. A
/// newline after a comma does not end the statement. With `spaced`, each
/// comma leaves a [`separator`] in the list.
pub open spec fn arguments_at(
    input: Seq<char>,
    st: PState,
    items: Seq<ExpressionView>,
    expect_more: bool,
    spaced: bool,
) -> PResult<Seq<ExpressionView>>
    decreases measure(input, st), 3int,
{
    let kind = st.current.kind;
    if kind == TokenKind::RightCurlyBrace || kind == TokenKind::Eof {
        Ok((items, st))
    } else if kind == TokenKind::NewLine || kind == TokenKind::Semicolon {
        if expect_more {
            proof {
                lemma_advance(input, st, false);
            }
            arguments_at(input, advance(input, st.position, false), items, true, spaced)
        } else {
            Ok((items, st))
        }
    } else if kind == TokenKind::Comma {
        proof {
            lemma_advance(input, st, false);
        }
        arguments_at(
            input,
            advance(input, st.position, false),
            if spaced {
                items.push(separator())
            } else {
                items
            },
            true,
            spaced,
        )
    } else {
        match expression_at(input, st, 0) {
            Err(e) => Err(e),
            Ok((item, st1)) => if measure(input, st1) < measure(input, st) {
                arguments_at(input, st1, items.push(item), false, spaced)
            } else {
                Err(failure(st1, Expected::Progress))
            },
        }
    }
}

/// The statement that assigns to a field: `$` is read, the state is `st`.
pub open spec fn field_assignment_at(input: Seq<char>, st: PState) -> PResult<StatementView>
{
    match within(input, primary_at(input, st), st) {
        Err(e) => Err(e),
        Ok((field, st1)) => {
            let operator = st1.current.kind;
            if operator != TokenKind::Assign && compound_operator(operator).is_none() {
                Err(failure(st1, Expected::AssignmentOperator))
            } else {
                let st2 = advance(input, st1.position, false);
                match expression_at(input, st2, 0) {
                    Err(e) => Err(e),
                    Ok((right, st3)) => Ok(
                        (
                            StatementView::FieldAssignment {
                                field,
                                value: match compound_operator(operator) {
                                    None => right,
                                    Some(op) => ExpressionView::Infix {
                                        left: Box::new(ExpressionView::Field(Box::new(field))),
                                        operator: op,
                                        right: Box::new(right),
                                    },
                                },
                            },
                            st3,
                        ),
                    ),
                }
            }
        },
    }
}

/// The statement that starts with the variable `identifier`: the name is
/// read, the state is `st`.
pub open spec fn assignment_at(input: Seq<char>, st: PState, identifier: Seq<char>) -> PResult<
    StatementView,
>
{
    let next = advance(input, st.position, false);
    let kind = st.current.kind;
    if kind == TokenKind::LeftSquareBracket {
        let st1 = advance(input, st.position, true);
        match within(input, expression_at(input, st1, 0), st1) {
            Err(e) => Err(e),
            Ok((index, st2)) => match expect(
                input,
                st2,
                TokenKind::RightSquareBracket,
                Expected::RightBracket,
                false,
            ) {
                Err(e) => Err(e),
                Ok(st3) => {
                    let st4 = advance(input, st3.position, false);
                    if st3.current.kind == TokenKind::Assign {
                        match expression_at(input, st4, 0) {
                            Err(e) => Err(e),
                            Ok((value, st5)) => Ok(
                                (StatementView::ArrayAssignment { identifier, index, value }, st5),
                            ),
                        }
                    } else if st3.current.kind == TokenKind::AddAssign {
                        match expression_at(input, st4, 0) {
                            Err(e) => Err(e),
                            Ok((value, st5)) => Ok(
                                (
                                    StatementView::ArrayAddAssignment { identifier, index, value },
                                    st5,
                                ),
                            ),
                        }
                    } else {
                        Err(failure(st3, Expected::AssignmentOperator))
                    }
                },
            },
        }
    } else if kind == TokenKind::Assign {
        match expression_at(input, next, 0) {
            Err(e) => Err(e),
            Ok((value, st1)) => Ok((StatementView::Assignment { identifier, value }, st1)),
        }
    } else if kind == TokenKind::Increment {
        Ok((StatementView::PostIncrement { identifier }, next))
    } else if kind == TokenKind::AddAssign {
        match expression_at(input, next, 0) {
            Err(e) => Err(e),
            Ok((value, st1)) => Ok((StatementView::AddAssignment { identifier, value }, st1)),
        }
    } else {
        Err(failure(st, Expected::AssignmentOperator))
    }
}

/// A condition in parentheses, and the state at the body that follows it:
/// the keyword is read, the state is `st`.
pub open spec fn condition_at(input: Seq<char>, st: PState) -> PResult<ExpressionView>
{
    match expect(input, st, TokenKind::LeftParen, Expected::LeftParen, true) {
        Err(e) => Err(e),
        Ok(st1) => {
            match expression_at(input, st1, 0) {
                Err(e) => Err(e),
                Ok((condition, st2)) => match expect(
                    input,
                    st2,
                    TokenKind::RightParen,
                    Expected::RightParen,
                    false,
                ) {
                    Err(e) => Err(e),
                    Ok(st3) => Ok((condition, skip_separators(input, st3))),
                },
            }
        },
    }
}

/// The body of `if`, `while` or `for`: the statements between braces, or one
/// statement.
pub open spec fn body_at(input: Seq<char>, st: PState) -> PResult<Seq<StatementView>>
    decreases measure(input, st), 6int,
{
    if st.current.kind == TokenKind::LeftCurlyBrace {
        block_at(input, st)
    } else {
        match statement_at(input, st) {
            Err(e) => Err(e),
            Ok((statement, st1)) => Ok((seq![statement], st1)),
        }
    }
}

/// The statements between braces, the closing brace included: the state is
/// at the opening brace.
pub open spec fn block_at(input: Seq<char>, st: PState) -> PResult<Seq<StatementView>>
    decreases measure(input, st), 5int,
{
    if st.current.kind == TokenKind::Eof {
        Err(failure(st, Expected::LeftBrace))
    } else {
        proof {
            lemma_advance(input, st, false);
        }
        match statements_at(input, advance(input, st.position, false), Seq::empty()) {
            Err(e) => Err(e),
            Ok((statements, st1)) => if st1.current.kind == TokenKind::RightCurlyBrace {
                Ok((statements, advance(input, st1.position, false)))
            } else {
                Ok((statements, st1))
            },
        }
    }
}

/// The statements up to the closing brace or the end of the script, after
/// the statements `done`. Newlines and semicolons separate them.
pub open spec fn statements_at(input: Seq<char>, st: PState, done: Seq<StatementView>) -> PResult<
    Seq<StatementView>,
>
    decreases measure(input, st), 5int,
{
    let st1 = skip_separators(input, st);
    if st1.current.kind == TokenKind::RightCurlyBrace || st1.current.kind == TokenKind::Eof {
        Ok((done, st1))
    } else {
        proof {
            lemma_skip_separators(input, st);
        }
        match statement_at(input, st1) {
            Err(e) => Err(e),
            Ok((statement, st2)) => if measure(input, st2) < measure(input, st) {
                statements_at(input, st2, done.push(statement))
            } else {
                Err(failure(st2, Expected::Progress))
            },
        }
    }
}

/// The statement `gsub(pattern, replacement)`: the state is at `gsub`.
pub open spec fn gsub_at(input: Seq<char>, st: PState) -> PResult<StatementView>
{
    let next = advance(input, st.position, false);
    match expect(input, next, TokenKind::LeftParen, Expected::LeftParen, true) {
        Err(e) => Err(e),
        Ok(st1) => match within(input, expression_at(input, st1, 0), st1) {
            Err(e) => Err(e),
            Ok((pattern, st2)) => match expect(
                input,
                st2,
                TokenKind::Comma,
                Expected::Comma,
                false,
            ) {
                Err(e) => Err(e),
                Ok(st3) => {
                    match expression_at(input, st3, 0) {
                        Err(e) => Err(e),
                        Ok((replacement, st4)) => match expect(
                            input,
                            st4,
                            TokenKind::RightParen,
                            Expected::RightParen,
                            false,
                        ) {
                            Err(e) => Err(e),
                            Ok(st5) => Ok(
                                (StatementView::Gsub { pattern, replacement }, st5),
                            ),
                        },
                    }
                },
            },
        },
    }
}

/// An `if` statement: the state is at `if`.
pub open spec fn if_at(input: Seq<char>, st: PState) -> PResult<StatementView>
    decreases measure(input, st), 3int,
{
    let next = advance(input, st.position, false);
    if st.current.kind == TokenKind::Eof {
        Err(failure(st, Expected::Statement))
    } else {
        proof {
            lemma_advance(input, st, false);
        }
        match within(input, condition_at(input, next), next) {
            Err(e) => Err(e),
            Ok((condition, st1)) => match body_at(input, st1) {
                Err(e) => Err(e),
                Ok((then_statements, st2)) => Ok(
                    (StatementView::If { condition, then_statements }, st2),
                ),
            },
        }
    }
}

/// A `while` statement: the state is at `while`.
pub open spec fn while_at(input: Seq<char>, st: PState) -> PResult<StatementView>
    decreases measure(input, st), 3int,
{
    let next = advance(input, st.position, false);
    if st.current.kind == TokenKind::Eof {
        Err(failure(st, Expected::Statement))
    } else {
        proof {
            lemma_advance(input, st, false);
        }
        match within(input, condition_at(input, next), next) {
            Err(e) => Err(e),
            Ok((condition, st1)) => match body_at(input, st1) {
                Err(e) => Err(e),
                Ok((statements, st2)) => Ok(
                    (StatementView::While { condition, statements }, st2),
                ),
            },
        }
    }
}

/// A `for` statement: the state is at `for`.
pub open spec fn for_at(input: Seq<char>, st: PState) -> PResult<StatementView>
    decreases measure(input, st), 3int,
{
    let next = advance(input, st.position, false);
    proof {
        lemma_advance(input, st, false);
        lemma_advance(input, next, false);
    }
    match expect(input, next, TokenKind::LeftParen, Expected::LeftParen, false) {
        Err(e) => Err(e),
        Ok(st1) => match within(input, statement_at(input, st1), st1) {
            Err(e) => Err(e),
            Ok((init, st2)) => match expect(
                input,
                st2,
                TokenKind::Semicolon,
                Expected::Semicolon,
                true,
            ) {
                Err(e) => Err(e),
                Ok(st3) => {
                    proof {
                        lemma_advance(input, st2, true);
                    }
                    match within(input, expression_at(input, st3, 0), st3) {
                        Err(e) => Err(e),
                        Ok((condition, st4)) => match expect(
                            input,
                            st4,
                            TokenKind::Semicolon,
                            Expected::Semicolon,
                            false,
                        ) {
                            Err(e) => Err(e),
                            Ok(st5) => {
                                proof {
                                    lemma_advance(input, st4, false);
                                }
                                match within(input, statement_at(input, st5), st5) {
                                    Err(e) => Err(e),
                                    Ok((update, st6)) => match expect(
                                        input,
                                        st6,
                                        TokenKind::RightParen,
                                        Expected::RightParen,
                                        false,
                                    ) {
                                        Err(e) => Err(e),
                                        Ok(st7) => {
                                            proof {
                                                lemma_advance(input, st6, false);
                                                lemma_skip_separators(input, st7);
                                            }
                                            match body_at(
                                                input,
                                                skip_separators(input, st7),
                                            ) {
                                                Err(e) => Err(e),
                                                Ok((statements, st8)) => Ok(
                                                    (
                                                        StatementView::For {
                                                            init: Box::new(init),
                                                            condition,
                                                            update: Box::new(update),
                                                            statements,
                                                        },
                                                        st8,
                                                    ),
                                                ),
                                            }
                                        },
                                    },
                                }
                            },
                        },
                    }
                },
            },
        },
    }
}

/// A statement.
pub open spec fn statement_at(input: Seq<char>, st: PState) -> PResult<StatementView>
    decreases measure(input, st), 4int,
{
    let next = advance(input, st.position, false);
    match st.current.kind {
        TokenKind::Print => match arguments_at(input, next, Seq::empty(), false, true) {
            Err(e) => Err(e),
            Ok((items, st1)) => Ok((StatementView::Print(items), st1)),
        },
        TokenKind::Printf => match arguments_at(input, next, Seq::empty(), false, false) {
            Err(e) => Err(e),
            Ok((items, st1)) => Ok((StatementView::Printf(items), st1)),
        },
        TokenKind::Gsub => gsub_at(input, st),
        TokenKind::If => if_at(input, st),
        TokenKind::While => while_at(input, st),
        TokenKind::For => for_at(input, st),
        TokenKind::Exit => Ok((StatementView::Exit, next)),
        TokenKind::Identifier => assignment_at(input, next, st.current.literal),
        TokenKind::DollarSign => field_assignment_at(input, next),
        TokenKind::Increment => {
            if next.current.kind == TokenKind::Identifier {
                Ok(
                    (
                        StatementView::PreIncrement { identifier: next.current.literal },
                        advance(input, next.position, false),
                    ),
                )
            } else {
                Err(failure(next, Expected::Identifier))
            }
        },
        _ => Err(failure(st, Expected::Statement)),
    }
}

/// The action of a rule: the statements between braces. The state is at the
/// opening brace; afterwards it is at the closing brace, which is not read.
pub open spec fn action_at(input: Seq<char>, st: PState) -> PResult<ActionView> {
    if st.current.kind != TokenKind::LeftCurlyBrace {
        Err(failure(st, Expected::LeftBrace))
    } else {
        match statements_at(input, advance(input, st.position, false), Seq::empty()) {
            Err(e) => Err(e),
            Ok((statements, st1)) => Ok((ActionView { statements }, st1)),
        }
    }
}

/// A rule that starts with a pattern: one expression, or two with a comma
/// between them for a range, and an action if one follows.
pub open spec fn pattern_rule_at(input: Seq<char>, st: PState) -> PResult<RuleView> {
    match expression_at(input, st, 0) {
        Err(e) => Err(e),
        Ok((first, st1)) => {
            let ranged: PResult<ExpressionView> = if st1.current.kind == TokenKind::Comma {
                match expression_at(input, advance(input, st1.position, true), 0) {
                    Err(e) => Err(e),
                    Ok((second, st2)) => Ok(
                        (
                            ExpressionView::Infix {
                                left: Box::new(first),
                                operator: TokenKind::Comma,
                                right: Box::new(second),
                            },
                            st2,
                        ),
                    ),
                }
            } else {
                Ok((first, st1))
            };
            match ranged {
                Err(e) => Err(e),
                Ok((pattern, st3)) => if st3.current.kind == TokenKind::LeftCurlyBrace {
                    match action_at(input, st3) {
                        Err(e) => Err(e),
                        Ok((action, st4)) => Ok(
                            (
                                RuleView::PatternAction {
                                    pattern: Some(pattern),
                                    action: Some(action),
                                },
                                st4,
                            ),
                        ),
                    }
                } else {
                    Ok((RuleView::PatternAction { pattern: Some(pattern), action: None }, st3))
                },
            }
        },
    }
}

/// The next rule of the script, if there is one before its end. Newlines
/// before the rule are skipped.
pub open spec fn rule_at(input: Seq<char>, st: PState) -> PResult<Option<RuleView>>
    decreases measure(input, st),
{
    let kind = st.current.kind;
    if kind == TokenKind::NewLine {
        proof {
            lemma_advance(input, st, true);
        }
        rule_at(input, advance(input, st.position, true))
    } else if kind == TokenKind::Eof {
        Ok((None, st))
    } else if kind == TokenKind::Begin {
        match action_at(input, advance(input, st.position, false)) {
            Err(e) => Err(e),
            Ok((action, st1)) => Ok((Some(RuleView::Begin(action)), st1)),
        }
    } else if kind == TokenKind::End {
        match action_at(input, advance(input, st.position, false)) {
            Err(e) => Err(e),
            Ok((action, st1)) => Ok((Some(RuleView::End(action)), st1)),
        }
    } else if kind == TokenKind::LeftCurlyBrace {
        match action_at(input, st) {
            Err(e) => Err(e),
            Ok((action, st1)) => Ok((Some(RuleView::Action(action)), st1)),
        }
    } else if is_pattern_start(kind) {
        match pattern_rule_at(input, st) {
            Err(e) => Err(e),
            Ok((rule, st1)) => Ok((Some(rule), st1)),
        }
    } else {
        Err(failure(st, Expected::Rule))
    }
}

/// The program `program` with `rule` added to the list it belongs to.
pub open spec fn with_rule(program: ProgramView, rule: RuleView) -> ProgramView {
    match rule {
        RuleView::Begin(_) => ProgramView {
            begin_blocks: program.begin_blocks.push(rule),
            ..program
        },
        RuleView::End(_) => ProgramView { end_blocks: program.end_blocks.push(rule), ..program },
        _ => ProgramView { rules: program.rules.push(rule), ..program },
    }
}

/// The rules of the script from `st` on, added to `program`. After each rule
/// one token is read: the brace that closes its action.
pub open spec fn rules_at(input: Seq<char>, st: PState, program: ProgramView) -> Result<
    ProgramView,
    ParseErrorView,
>
    decreases measure(input, st),
{
    if st.current.kind == TokenKind::Eof {
        Ok(program)
    } else {
        match rule_at(input, st) {
            Err(e) => Err(e),
            Ok((rule, st1)) => {
                let st2 = advance(input, st1.position, true);
                if measure(input, st2) < measure(input, st) {
                    rules_at(
                        input,
                        st2,
                        match rule {
                            Some(rule) => with_rule(program, rule),
                            None => program,
                        },
                    )
                } else {
                    Err(failure(st2, Expected::Progress))
                }
            },
        }
    }
}

/// The program without rules.
pub open spec fn empty_program() -> ProgramView {
    ProgramView { begin_blocks: Seq::empty(), rules: Seq::empty(), end_blocks: Seq::empty() }
}

/// The program that the script `input` stands for, or the error that the
/// parser gives for it.
pub open spec fn parse(input: Seq<char>) -> Result<ProgramView, ParseErrorView> {
    rules_at(input, advance(input, 0, true), empty_program())
}

} // verus!
