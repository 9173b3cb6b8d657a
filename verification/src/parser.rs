//! The parser: from tokens to the syntax tree.
//!
//! The parser reads the tokens of a [`Lexer`] one ahead and builds the tree
//! that [`crate::grammar`] gives for the script. What it cannot read it
//! reports as a [`ParseError`], with the offset of the token it stopped at.

use vstd::prelude::*;
use crate::ast::{
    expression_stands, expressions_stand, expressions_view, rule_stands, statement_stands,
    statements_stand, statements_view, token_stands, Action, Expression, Program, Rule, Statement,
};
use crate::grammar::{action_at, advance, arguments_at, assignment_at, block_at, body_at, compound_operator, condition_at, empty_program, expected_text, expression_at, failure, field_assignment_at, hex_digit_value, hex_value, infix_precedence, is_expression_start, is_pattern_start, keeps_place, lemma_advance, literal_number, measure, operators_at, parse, pattern_rule_at, primary_at, regex_follows, rule_at, rules_at, separator, skip_separators, statement_at, statements_at, Expected, PResult, PState, ParseErrorView};
use crate::lexer::Lexer;
use crate::number::{Number, SCALE, WHOLE_LIMIT};
use crate::text::chars_of;
use crate::lexing::{lemma_compound_text, lemma_lex_placed, lemma_occurs_split};
use crate::token::{kind_string, kind_text, Token, TokenKind, TokenView};

verus! {

/// Why a script could not be parsed.
#[derive(Debug, Clone, PartialEq, Eq)]
pub struct ParseError {
    /// The offset in the script of the token that the parser could not take.
    pub offset: usize,
    /// What the parser looked for.
    pub message: String,
}

impl View for ParseError {
    type V = ParseErrorView;

    open spec fn view(&self) -> ParseErrorView {
        ParseErrorView { offset: self.offset as nat, message: self.message@ }
    }
}

/// The parser: a lexer and the token it has read ahead.
#[derive(Debug)]
pub struct Parser {
    lexer: Lexer,
    current_token: Token,
}

/// Whether the parser's answer `r`, with the parser left in the state `st`,
/// is what the grammar gives.
pub open spec fn agrees<T: View>(r: Result<T, ParseError>, st: PState, expected: PResult<
    T::V,
>) -> bool {
    match expected {
        Ok((v, after)) => r is Ok && r->Ok_0@ == v && st == after,
        Err(e) => r is Err && r->Err_0@ == e,
    }
}

/// Whether the token `t` can be left in a tree as it is, if it is one that
/// can become the operator of an expression.
pub open spec fn token_placed(input: Seq<char>, t: TokenView) -> bool {
    keeps_place(t.kind) ==> token_stands(input, t)
}

/// [`agrees`], for a list of expressions.
pub open spec fn arguments_agree(
    r: Result<Vec<Expression>, ParseError>,
    st: PState,
    expected: PResult<Seq<crate::ast::ExpressionView>>,
) -> bool {
    match expected {
        Ok((v, after)) => r is Ok && expressions_view(r->Ok_0@) == v && st == after,
        Err(e) => r is Err && r->Err_0@ == e,
    }
}

/// [`agrees`], for a list of statements.
pub open spec fn statements_agree(
    r: Result<Vec<Statement>, ParseError>,
    st: PState,
    expected: PResult<Seq<crate::ast::StatementView>>,
) -> bool {
    match expected {
        Ok((v, after)) => r is Ok && statements_view(r->Ok_0) == v && st == after,
        Err(e) => r is Err && r->Err_0@ == e,
    }
}

/// [`agrees`], for a rule that may be missing.
pub open spec fn rule_agrees(
    r: Result<Option<Rule>, ParseError>,
    st: PState,
    expected: PResult<Option<crate::ast::RuleView>>,
) -> bool {
    match expected {
        Ok((v, after)) => r is Ok && st == after && match v {
            Some(rule) => r->Ok_0 is Some && r->Ok_0->Some_0@ == rule,
            None => r->Ok_0 is None,
        },
        Err(e) => r is Err && r->Err_0@ == e,
    }
}

/// The message of an error, by what the parser looked for.
fn expected_message(what: Expected) -> (s: String)
    ensures
        s@ == expected_text(what),
{
    match what {
        Expected::Rule => "expected a rule".to_owned(),
        Expected::Statement => "expected a statement".to_owned(),
        Expected::Expression => "expected an expression".to_owned(),
        Expected::Identifier => "expected an identifier".to_owned(),
        Expected::AssignmentOperator => "expected an assignment operator".to_owned(),
        Expected::LeftBrace => "expected `{`".to_owned(),
        Expected::LeftParen => "expected `(`".to_owned(),
        Expected::RightParen => "expected `)`".to_owned(),
        Expected::RightBracket => "expected `]`".to_owned(),
        Expected::Comma => "expected `,`".to_owned(),
        Expected::Semicolon => "expected `;`".to_owned(),
        Expected::Progress => "the parser cannot go on".to_owned(),
    }
}

/// The binding powers of an infix operator.
fn infix_operator_precedence(kind: TokenKind) -> (r: Option<(u8, u8)>)
    ensures
        match infix_precedence(kind) {
            Some((l, r2)) => r == Some((l as u8, r2 as u8)) && 0 <= l <= 13 && 0 <= r2 <= 13,
            None => r.is_none(),
        },
{
    match kind {
        TokenKind::Assign => Some((0, 0)),
        TokenKind::Or => Some((1, 2)),
        TokenKind::And => Some((3, 4)),
        TokenKind::Equal
        | TokenKind::NotEqual
        | TokenKind::GreaterThan
        | TokenKind::GreaterThanOrEqual
        | TokenKind::LessThan
        | TokenKind::LessThanOrEqual
        | TokenKind::Tilde
        | TokenKind::NoMatch => Some((5, 6)),
        TokenKind::Plus | TokenKind::Minus => Some((7, 8)),
        TokenKind::Asterisk | TokenKind::Division | TokenKind::Percent => Some((9, 10)),
        TokenKind::Caret => Some((13, 12)),
        _ => None,
    }
}

/// Whether a token of kind `kind` can start an expression.
fn expression_start(kind: TokenKind) -> (r: bool)
    ensures
        r == is_expression_start(kind),
{
    match kind {
        TokenKind::String
        | TokenKind::Regex
        | TokenKind::Number
        | TokenKind::DollarSign
        | TokenKind::LeftParen
        | TokenKind::Identifier
        | TokenKind::Length
        | TokenKind::Substr => true,
        _ => false,
    }
}

/// Whether a token of kind `kind` can start the pattern of a rule.
fn pattern_start(kind: TokenKind) -> (r: bool)
    ensures
        r == is_pattern_start(kind),
{
    match kind {
        TokenKind::String
        | TokenKind::Regex
        | TokenKind::Number
        | TokenKind::DollarSign
        | TokenKind::LeftParen
        | TokenKind::Identifier
        | TokenKind::Length => true,
        _ => false,
    }
}

/// Whether a regex literal may follow the operator `kind`.
fn regex_may_follow(kind: TokenKind) -> (r: bool)
    ensures
        r == regex_follows(kind),
{
    match kind {
        TokenKind::Tilde | TokenKind::NoMatch | TokenKind::And | TokenKind::Or => true,
        _ => false,
    }
}

/// The operator that a compound assignment applies.
fn compound_assign_operator(kind: TokenKind) -> (r: Option<TokenKind>)
    ensures
        r == compound_operator(kind),
{
    match kind {
        TokenKind::AddAssign => Some(TokenKind::Plus),
        TokenKind::SubtractAssign => Some(TokenKind::Minus),
        TokenKind::MultiplyAssign => Some(TokenKind::Asterisk),
        TokenKind::DivideAssign => Some(TokenKind::Division),
        TokenKind::ModuloAssign => Some(TokenKind::Percent),
        TokenKind::PowerAssign => Some(TokenKind::Caret),
        _ => None,
    }
}

/// The value of hexadecimal digits is not negative, and one more digit makes
/// it no smaller.
proof fn lemma_hex_value(s: Seq<char>)
    ensures
        hex_value(s) >= 0,
        s.len() > 0 ==> hex_value(s) >= hex_value(s.drop_last()),
    decreases s.len(),
{
    if s.len() > 0 {
        lemma_hex_value(s.drop_last());
    }
}

/// The value of the hexadecimal digit `c`.
fn hex_digit(c: char) -> (d: i128)
    ensures
        d == hex_digit_value(c),
        0 <= d <= 15,
{
    if c >= '0' && c <= '9' {
        (c as u32 - '0' as u32) as i128
    } else if c >= 'a' && c <= 'f' {
        (c as u32 - 'a' as u32 + 10) as i128
    } else if c >= 'A' && c <= 'F' {
        (c as u32 - 'A' as u32 + 10) as i128
    } else {
        0
    }
}

/// The value of a number literal.
fn number_of_literal(literal: &String) -> (n: Number)
    ensures
        n == literal_number(literal@),
{
    let chars = chars_of(literal.as_str());
    if chars.len() >= 2 && chars[0] == '0' && (chars[1] == 'x' || chars[1] == 'X') {
        let ghost digits = chars@.skip(2);
        let mut value: i128 = 0;
        let mut i: usize = 2;
        while i < chars.len()
            invariant
                2 <= i <= chars.len(),
                digits == chars@.skip(2),
                0 <= value <= WHOLE_LIMIT * 16 + 15,
                value == hex_value(digits.take(i - 2)) || (value > WHOLE_LIMIT && hex_value(
                    digits.take(i - 2),
                ) > WHOLE_LIMIT),
            decreases chars.len() - i,
        {
            proof {
                let next = digits.take(i + 1 - 2);
                assert(next.drop_last() == digits.take(i - 2));
                assert(next.last() == chars@[i as int]);
                lemma_hex_value(next);
            }
            if value <= WHOLE_LIMIT {
                value = value * 16 + hex_digit(chars[i]);
            }
            i += 1;
        }
        assert(digits.take(chars.len() - 2) == digits);
        if value > WHOLE_LIMIT {
            Number::PosInf
        } else {
            Number::Finite(value * SCALE).normalized()
        }
    } else {
        Number::from_chars(&chars)
    }
}

impl Parser {
    /// The script that is parsed.
    pub closed spec fn input(&self) -> Seq<char> {
        self.lexer.input()
    }

    /// The state of the parser.
    pub closed spec fn state(&self) -> PState {
        PState { position: self.lexer.position(), current: self.current_token@ }
    }

    /// Whether the parser is between two constructs: the lexer reads `/` as
    /// the division operator unless the parser says otherwise.
    pub closed spec fn wf(&self) -> bool {
        !self.lexer.allow_regex() && token_placed(self.lexer.input(), self.current_token@)
    }

    /// What the state of the parser is worth.
    pub open spec fn worth(&self) -> nat {
        measure(self.input(), self.state())
    }

    /// A parser for the script of `lexer`, with the first token read ahead.
    /// A `/` at the start of the script opens a regex literal.
    pub fn new(lexer: Lexer) -> (parser: Parser)
        ensures
            parser.wf(),
            parser.input() == lexer.input(),
            parser.state() == advance(lexer.input(), lexer.position(), true),
    {
        reveal(advance);
        let mut lexer = lexer;
        proof {
            lemma_lex_placed(lexer.input(), lexer.position() as int, true);
        }
        lexer.set_allow_regex(true);
        let current_token = lexer.next_token();
        lexer.set_allow_regex(false);
        Parser { lexer, current_token }
    }

    /// The token that the parser has read ahead.
    pub fn current_token(&self) -> (token: &Token)
        ensures
            token@ == self.state().current,
    {
        &self.current_token
    }

    /// Reads the next token ahead.
    pub fn next_token(&mut self)
        requires
            old(self).wf(),
        ensures
            final(self).wf(),
            final(self).input() == old(self).input(),
            final(self).state() == advance(old(self).input(), old(self).state().position, false),
            final(self).worth() <= old(self).worth(),
            old(self).state().current.kind != TokenKind::Eof ==> final(self).worth() < old(
                self,
            ).worth(),
    {
        self.next_token_with_regex(false);
    }

    /// Reads the next token ahead; with `allow_regex`, a `/` opens a regex
    /// literal.
    fn next_token_with_regex(&mut self, allow_regex: bool)
        requires
            old(self).wf(),
        ensures
            final(self).wf(),
            final(self).input() == old(self).input(),
            final(self).state() == advance(
                old(self).input(),
                old(self).state().position,
                allow_regex,
            ),
            final(self).worth() <= old(self).worth(),
            old(self).state().current.kind != TokenKind::Eof ==> final(self).worth() < old(
                self,
            ).worth(),
    {
        proof {
            reveal(advance);
            lemma_advance(self.input(), self.state(), allow_regex);
            lemma_lex_placed(self.input(), self.state().position, allow_regex);
        }
        self.lexer.set_allow_regex(allow_regex);
        self.current_token = self.lexer.next_token();
        self.lexer.set_allow_regex(false);
    }

    /// Whether the token ahead is the end of the script.
    fn is_eof(&self) -> (r: bool)
        ensures
            r == (self.state().current.kind == TokenKind::Eof),
    {
        self.current_token.kind == TokenKind::Eof
    }

    /// The kind of the token ahead.
    fn kind(&self) -> (kind: TokenKind)
        ensures
            kind == self.state().current.kind,
    {
        self.current_token.kind
    }

    /// The error of a parser that looked for `what`.
    fn fail(&self, what: Expected) -> (e: ParseError)
        ensures
            e@ == failure(self.state(), what),
    {
        ParseError { offset: self.current_token.offset, message: expected_message(what) }
    }

    /// Reads the token ahead if it is of kind `kind`.
    fn expect(&mut self, kind: TokenKind, what: Expected, allow_regex: bool) -> (r: Result<
        (),
        ParseError,
    >)
        requires
            old(self).wf(),
        ensures
            final(self).wf(),
            final(self).input() == old(self).input(),
            final(self).worth() <= old(self).worth(),
            match crate::grammar::expect(
                old(self).input(),
                old(self).state(),
                kind,
                what,
                allow_regex,
            ) {
                Ok(st) => r is Ok && final(self).state() == st,
                Err(e) => r is Err && r->Err_0@ == e,
            },
    {
        if self.current_token.kind == kind {
            self.next_token_with_regex(allow_regex);
            Ok(())
        } else {
            Err(self.fail(what))
        }
    }

    /// Skips newlines and semicolons.
    fn skip_separators(&mut self)
        requires
            old(self).wf(),
        ensures
            final(self).wf(),
            final(self).input() == old(self).input(),
            final(self).state() == skip_separators(old(self).input(), old(self).state()),
            final(self).worth() <= old(self).worth(),
    {
        while self.current_token.kind == TokenKind::NewLine || self.current_token.kind
            == TokenKind::Semicolon
            invariant
                self.wf(),
                self.input() == old(self).input(),
                self.worth() <= old(self).worth(),
                skip_separators(old(self).input(), old(self).state()) == skip_separators(
                    self.input(),
                    self.state(),
                ),
            decreases self.worth(),
        {
            self.next_token();
        }
    }

    fn parse_primary_expression(&mut self) -> (r: Result<Expression, ParseError>)
        requires
            old(self).wf(),
        ensures
            r is Ok ==> expression_stands(old(self).input(), r->Ok_0),
            final(self).wf(),
            final(self).input() == old(self).input(),
            agrees(r, final(self).state(), primary_at(old(self).input(), old(self).state())),
            final(self).worth() <= old(self).worth(),
            r is Ok ==> final(self).worth() < old(self).worth(),
        decreases old(self).worth(), 0int,
    {
        match self.current_token.kind {
            TokenKind::String => {
                let expression = Expression::String(self.current_token.literal.clone());
                self.next_token();
                Ok(expression)
            },
            TokenKind::Regex => {
                let expression = Expression::Regex(self.current_token.literal.clone());
                self.next_token();
                Ok(expression)
            },
            TokenKind::Number => {
                let expression = Expression::Number(number_of_literal(&self.current_token.literal));
                self.next_token();
                Ok(expression)
            },
            TokenKind::DollarSign => {
                self.next_token();
                match self.parse_primary_expression() {
                    Ok(inner) => Ok(Expression::Field(Box::new(inner))),
                    Err(e) => Err(e),
                }
            },
            TokenKind::LeftParen => {
                self.next_token();
                match self.parse_expression() {
                    Err(e) => Err(e),
                    Ok(inner) => match self.expect(
                        TokenKind::RightParen,
                        Expected::RightParen,
                        false,
                    ) {
                        Ok(()) => Ok(inner),
                        Err(e) => Err(e),
                    },
                }
            },
            TokenKind::Identifier => {
                let identifier = self.current_token.literal.clone();
                self.next_token();
                if self.current_token.kind == TokenKind::LeftSquareBracket {
                    self.next_token_with_regex(true);
                    match self.parse_expression() {
                        Err(e) => Err(e),
                        Ok(index) => match self.expect(
                            TokenKind::RightSquareBracket,
                            Expected::RightBracket,
                            false,
                        ) {
                            Ok(()) => Ok(
                                Expression::ArrayAccess { identifier, index: Box::new(index) },
                            ),
                            Err(e) => Err(e),
                        },
                    }
                } else {
                    Ok(Expression::Identifier(identifier))
                }
            },
            TokenKind::Length => {
                self.next_token();
                if self.current_token.kind == TokenKind::LeftParen {
                    self.next_token();
                    if self.current_token.kind == TokenKind::RightParen {
                        self.next_token();
                        Ok(Expression::Length(None))
                    } else {
                        match self.parse_expression() {
                            Err(e) => Err(e),
                            Ok(inner) => match self.expect(
                                TokenKind::RightParen,
                                Expected::RightParen,
                                false,
                            ) {
                                Ok(()) => Ok(Expression::Length(Some(Box::new(inner)))),
                                Err(e) => Err(e),
                            },
                        }
                    }
                } else {
                    Ok(Expression::Length(None))
                }
            },
            TokenKind::Substr => {
                self.next_token();
                match self.expect(TokenKind::LeftParen, Expected::LeftParen, false) {
                    Err(e) => {
                        return Err(e);
                    },
                    Ok(()) => {},
                }
                let string = match self.parse_expression() {
                    Err(e) => {
                        return Err(e);
                    },
                    Ok(string) => string,
                };
                match self.expect(TokenKind::Comma, Expected::Comma, false) {
                    Err(e) => {
                        return Err(e);
                    },
                    Ok(()) => {},
                }
                let start = match self.parse_expression() {
                    Err(e) => {
                        return Err(e);
                    },
                    Ok(start) => start,
                };
                let length = if self.current_token.kind == TokenKind::Comma {
                    self.next_token();
                    match self.parse_expression() {
                        Err(e) => {
                            return Err(e);
                        },
                        Ok(length) => Some(Box::new(length)),
                    }
                } else {
                    None
                };
                match self.expect(TokenKind::RightParen, Expected::RightParen, false) {
                    Err(e) => Err(e),
                    Ok(()) => Ok(
                        Expression::Substr {
                            string: Box::new(string),
                            start: Box::new(start),
                            length,
                        },
                    ),
                }
            },
            _ => Err(self.fail(Expected::Expression)),
        }
    }

    fn parse_expression(&mut self) -> (r: Result<Expression, ParseError>)
        requires
            old(self).wf(),
        ensures
            r is Ok ==> expression_stands(old(self).input(), r->Ok_0),
            final(self).wf(),
            final(self).input() == old(self).input(),
            agrees(r, final(self).state(), expression_at(old(self).input(), old(self).state(), 0)),
            final(self).worth() <= old(self).worth(),
            r is Ok ==> final(self).worth() < old(self).worth(),
        decreases old(self).worth(), 2int,
    {
        self.parse_expression_with_min_precedence(0)
    }

    fn parse_expression_with_min_precedence(&mut self, min_precedence: u8) -> (r: Result<
        Expression,
        ParseError,
    >)
        requires
            old(self).wf(),
        ensures
            r is Ok ==> expression_stands(old(self).input(), r->Ok_0),
            final(self).wf(),
            final(self).input() == old(self).input(),
            agrees(
                r,
                final(self).state(),
                expression_at(old(self).input(), old(self).state(), min_precedence as int),
            ),
            final(self).worth() <= old(self).worth(),
            r is Ok ==> final(self).worth() < old(self).worth(),
        decreases old(self).worth(), 1int,
    {
        let mut left = match self.parse_primary_expression() {
            Err(e) => {
                return Err(e);
            },
            Ok(left) => left,
        };
        loop
            invariant
                self.wf(),
                self.input() == old(self).input(),
                self.worth() < old(self).worth(),
                expression_at(old(self).input(), old(self).state(), min_precedence as int)
                    == operators_at(self.input(), self.state(), left@, min_precedence as int),
                expression_stands(self.input(), left),
            decreases self.worth(),
        {
            let kind = self.current_token.kind;
            match infix_operator_precedence(kind) {
                None => {
                    if expression_start(kind) && 6 >= min_precedence {
                        let right = match self.parse_expression_with_min_precedence(7) {
                            Err(e) => {
                                return Err(e);
                            },
                            Ok(right) => right,
                        };
                        left =
                        Expression::Concatenation { left: Box::new(left), right: Box::new(right) };
                    } else {
                        return Ok(left);
                    }
                },
                Some((left_precedence, right_precedence)) => {
                    if left_precedence < min_precedence {
                        return Ok(left);
                    }
                    let operator = self.current_token.duplicate();
                    assert(token_stands(self.input(), operator@));
                    self.next_token_with_regex(regex_may_follow(kind));
                    let right = match self.parse_expression_with_min_precedence(right_precedence) {
                        Err(e) => {
                            return Err(e);
                        },
                        Ok(right) => right,
                    };
                    left =
                    Expression::Infix { left: Box::new(left), operator, right: Box::new(right) };
                },
            }
        }
    }

    /// Reads the arguments of `print` or `printf`, up to the end of the
    /// statement.
    fn parse_expression_list_until_action_end(&mut self, spaced: bool) -> (r: Result<
        Vec<Expression>,
        ParseError,
    >)
        requires
            old(self).wf(),
        ensures
            r is Ok ==> expressions_stand(old(self).input(), r->Ok_0@),
            final(self).wf(),
            final(self).input() == old(self).input(),
            arguments_agree(
                r,
                final(self).state(),
                arguments_at(old(self).input(), old(self).state(), Seq::empty(), false, spaced),
            ),
            final(self).worth() <= old(self).worth(),
    {
        let mut expressions: Vec<Expression> = Vec::new();
        let mut expect_more = false;
        assert(expressions_view(expressions@) =~= Seq::empty());
        loop
            invariant
                self.wf(),
                self.input() == old(self).input(),
                self.worth() <= old(self).worth(),
                arguments_at(old(self).input(), old(self).state(), Seq::empty(), false, spaced)
                    == arguments_at(
                    self.input(),
                    self.state(),
                    expressions_view(expressions@),
                    expect_more,
                    spaced,
                ),
                expressions_stand(self.input(), expressions@),
            decreases self.worth(),
        {
            let kind = self.current_token.kind;
            if kind == TokenKind::RightCurlyBrace || kind == TokenKind::Eof {
                return Ok(expressions);
            }
            if kind == TokenKind::NewLine || kind == TokenKind::Semicolon {
                if expect_more {
                    self.next_token();
                    continue ;
                }
                return Ok(expressions);
            }
            if kind == TokenKind::Comma {
                self.next_token();
                if spaced {
                    let ghost before = expressions_view(expressions@);
                    expressions.push(Expression::String(" ".to_owned()));
                    proof {
                        reveal_strlit(" ");
                        assert(" "@ =~= seq![' ']);
                        assert(expressions_view(expressions@) =~= before.push(separator()));
                    }
                }
                expect_more = true;
                continue ;
            }
            let expression = match self.parse_expression() {
                Err(e) => {
                    return Err(e);
                },
                Ok(expression) => expression,
            };
            let ghost before = expressions_view(expressions@);
            expressions.push(expression);
            assert(expressions_view(expressions@) =~= before.push(expression@));
            expect_more = false;
        }
    }

    /// Reads the rest of a statement that starts with a variable; the name
    /// is the token ahead.
    fn parse_assignment_statement(&mut self) -> (r: Result<Statement, ParseError>)
        requires
            old(self).wf(),
            old(self).state().current.kind != TokenKind::Eof,
        ensures
            r is Ok ==> statement_stands(old(self).input(), r->Ok_0),
            final(self).wf(),
            final(self).input() == old(self).input(),
            agrees(
                r,
                final(self).state(),
                assignment_at(
                    old(self).input(),
                    advance(old(self).input(), old(self).state().position, false),
                    old(self).state().current.literal,
                ),
            ),
            final(self).worth() <= old(self).worth(),
            r is Ok ==> final(self).worth() < old(self).worth(),
    {
        let identifier = self.current_token.literal.clone();
        self.next_token();
        let kind = self.current_token.kind;
        if kind == TokenKind::LeftSquareBracket {
            self.next_token_with_regex(true);
            let index = match self.parse_expression() {
                Err(e) => {
                    return Err(e);
                },
                Ok(index) => index,
            };
            match self.expect(TokenKind::RightSquareBracket, Expected::RightBracket, false) {
                Err(e) => {
                    return Err(e);
                },
                Ok(()) => {},
            }
            let operator = self.current_token.kind;
            if operator == TokenKind::Assign {
                self.next_token();
                match self.parse_expression() {
                    Err(e) => Err(e),
                    Ok(value) => Ok(Statement::ArrayAssignment { identifier, index, value }),
                }
            } else if operator == TokenKind::AddAssign {
                self.next_token();
                match self.parse_expression() {
                    Err(e) => Err(e),
                    Ok(value) => Ok(Statement::ArrayAddAssignment { identifier, index, value }),
                }
            } else {
                Err(self.fail(Expected::AssignmentOperator))
            }
        } else if kind == TokenKind::Assign {
            self.next_token();
            match self.parse_expression() {
                Err(e) => Err(e),
                Ok(value) => Ok(Statement::Assignment { identifier, value }),
            }
        } else if kind == TokenKind::Increment {
            self.next_token();
            Ok(Statement::PostIncrement { identifier })
        } else if kind == TokenKind::AddAssign {
            self.next_token();
            match self.parse_expression() {
                Err(e) => Err(e),
                Ok(value) => Ok(Statement::AddAssignment { identifier, value }),
            }
        } else {
            Err(self.fail(Expected::AssignmentOperator))
        }
    }

    /// Reads the rest of `++name`; `++` is the token ahead.
    fn parse_pre_increment_statement(&mut self) -> (r: Result<Statement, ParseError>)
        requires
            old(self).wf(),
            old(self).state().current.kind == TokenKind::Increment,
        ensures
            r is Ok ==> statement_stands(old(self).input(), r->Ok_0),
            final(self).wf(),
            final(self).input() == old(self).input(),
            agrees(r, final(self).state(), statement_at(old(self).input(), old(self).state())),
            final(self).worth() <= old(self).worth(),
            r is Ok ==> final(self).worth() < old(self).worth(),
    {
        self.next_token();
        if self.current_token.kind != TokenKind::Identifier {
            return Err(self.fail(Expected::Identifier));
        }
        let identifier = self.current_token.literal.clone();
        self.next_token();
        Ok(Statement::PreIncrement { identifier })
    }

    /// Reads the rest of an assignment to a field; `$` is the token ahead.
    fn parse_field_assignment_statement(&mut self) -> (r: Result<Statement, ParseError>)
        requires
            old(self).wf(),
            old(self).state().current.kind != TokenKind::Eof,
        ensures
            r is Ok ==> statement_stands(old(self).input(), r->Ok_0),
            final(self).wf(),
            final(self).input() == old(self).input(),
            agrees(
                r,
                final(self).state(),
                field_assignment_at(
                    old(self).input(),
                    advance(old(self).input(), old(self).state().position, false),
                ),
            ),
            final(self).worth() <= old(self).worth(),
            r is Ok ==> final(self).worth() < old(self).worth(),
    {
        self.next_token();
        let field = match self.parse_primary_expression() {
            Err(e) => {
                return Err(e);
            },
            Ok(field) => field,
        };
        let assign_kind = self.current_token.kind;
        let assign_offset = self.current_token.offset;
        let compound = compound_assign_operator(assign_kind);
        if assign_kind != TokenKind::Assign && compound.is_none() {
            return Err(self.fail(Expected::AssignmentOperator));
        }
        proof {
            if compound is Some {
                lemma_compound_text(assign_kind);
                lemma_occurs_split(
                    self.input(),
                    kind_text(compound->Some_0),
                    seq!['='],
                    assign_offset as int,
                );
            }
        }
        self.next_token();
        let right_value = match self.parse_expression() {
            Err(e) => {
                return Err(e);
            },
            Ok(value) => value,
        };
        let value = match compound {
            None => right_value,
            Some(kind) => {
                let copy = field.duplicate();
                assert(expression_stands(self.input(), copy));
                let target = Expression::Field(Box::new(copy));
                assert(target@ == crate::ast::ExpressionView::Field(Box::new(field@)));
                assert(expression_stands(self.input(), target));
                let operator = Token { kind, literal: kind_string(kind), offset: assign_offset };
                assert(token_stands(self.input(), operator@));
                Expression::Infix {
                    left: Box::new(target),
                    operator,
                    right: Box::new(right_value),
                }
            },
        };
        Ok(Statement::FieldAssignment { field, value })
    }

    /// Reads a condition in parentheses and the separators after it; the
    /// opening parenthesis is the token ahead.
    fn parse_condition(&mut self) -> (r: Result<Expression, ParseError>)
        requires
            old(self).wf(),
        ensures
            r is Ok ==> expression_stands(old(self).input(), r->Ok_0),
            final(self).wf(),
            final(self).input() == old(self).input(),
            agrees(r, final(self).state(), condition_at(old(self).input(), old(self).state())),
            final(self).worth() <= old(self).worth(),
    {
        match self.expect(TokenKind::LeftParen, Expected::LeftParen, true) {
            Err(e) => {
                return Err(e);
            },
            Ok(()) => {},
        }
        let condition = match self.parse_expression() {
            Err(e) => {
                return Err(e);
            },
            Ok(condition) => condition,
        };
        match self.expect(TokenKind::RightParen, Expected::RightParen, false) {
            Err(e) => {
                return Err(e);
            },
            Ok(()) => {},
        }
        self.skip_separators();
        Ok(condition)
    }

    /// Reads the body of `if`, `while` or `for`.
    fn parse_body(&mut self) -> (r: Result<Vec<Statement>, ParseError>)
        requires
            old(self).wf(),
        ensures
            r is Ok ==> statements_stand(old(self).input(), r->Ok_0),
            final(self).wf(),
            final(self).input() == old(self).input(),
            statements_agree(r, final(self).state(), body_at(old(self).input(), old(self).state())),
            final(self).worth() <= old(self).worth(),
            r is Ok ==> final(self).worth() < old(self).worth(),
        decreases old(self).worth(), 6int,
    {
        if self.current_token.kind == TokenKind::LeftCurlyBrace {
            self.parse_statement_block()
        } else {
            match self.parse_statement() {
                Err(e) => Err(e),
                Ok(statement) => {
                    let mut statements: Vec<Statement> = Vec::new();
                    statements.push(statement);
                    assert(statements_view(statements) =~= seq![statement@]);
                    Ok(statements)
                },
            }
        }
    }

    /// Reads the statements between braces, and the closing brace.
    fn parse_statement_block(&mut self) -> (r: Result<Vec<Statement>, ParseError>)
        requires
            old(self).wf(),
        ensures
            r is Ok ==> statements_stand(old(self).input(), r->Ok_0),
            final(self).wf(),
            final(self).input() == old(self).input(),
            statements_agree(
                r,
                final(self).state(),
                block_at(old(self).input(), old(self).state()),
            ),
            final(self).worth() <= old(self).worth(),
            r is Ok ==> final(self).worth() < old(self).worth(),
        decreases old(self).worth(), 5int,
    {
        if self.current_token.kind == TokenKind::Eof {
            return Err(self.fail(Expected::LeftBrace));
        }
        self.next_token();
        let statements = match self.parse_statements() {
            Err(e) => {
                return Err(e);
            },
            Ok(statements) => statements,
        };
        if self.current_token.kind == TokenKind::RightCurlyBrace {
            self.next_token();
        }
        Ok(statements)
    }

    /// Reads statements up to the closing brace or the end of the script.
    fn parse_statements(&mut self) -> (r: Result<Vec<Statement>, ParseError>)
        requires
            old(self).wf(),
        ensures
            r is Ok ==> statements_stand(old(self).input(), r->Ok_0),
            final(self).wf(),
            final(self).input() == old(self).input(),
            statements_agree(
                r,
                final(self).state(),
                statements_at(old(self).input(), old(self).state(), Seq::empty()),
            ),
            final(self).worth() <= old(self).worth(),
        decreases old(self).worth(), 5int,
    {
        let mut statements: Vec<Statement> = Vec::new();
        assert(statements_view(statements) =~= Seq::empty());
        loop
            invariant
                self.wf(),
                self.input() == old(self).input(),
                self.worth() <= old(self).worth(),
                statements_at(old(self).input(), old(self).state(), Seq::empty())
                    == statements_at(self.input(), self.state(), statements_view(statements)),
                statements_stand(self.input(), statements),
            decreases self.worth(),
        {
            self.skip_separators();
            if self.current_token.kind == TokenKind::RightCurlyBrace || self.current_token.kind
                == TokenKind::Eof {
                return Ok(statements);
            }
            let statement = match self.parse_statement() {
                Err(e) => {
                    return Err(e);
                },
                Ok(statement) => statement,
            };
            let ghost before = statements_view(statements);
            statements.push(statement);
            assert(statements_view(statements) =~= before.push(statement@));
        }
    }

    fn parse_statement(&mut self) -> (r: Result<Statement, ParseError>)
        requires
            old(self).wf(),
        ensures
            r is Ok ==> statement_stands(old(self).input(), r->Ok_0),
            final(self).wf(),
            final(self).input() == old(self).input(),
            agrees(r, final(self).state(), statement_at(old(self).input(), old(self).state())),
            final(self).worth() <= old(self).worth(),
            r is Ok ==> final(self).worth() < old(self).worth(),
        decreases old(self).worth(), 4int,
    {
        match self.current_token.kind {
            TokenKind::Print => {
                self.next_token();
                match self.parse_expression_list_until_action_end(true) {
                    Err(e) => Err(e),
                    Ok(expressions) => Ok(Statement::Print(expressions)),
                }
            },
            TokenKind::Printf => {
                self.next_token();
                match self.parse_expression_list_until_action_end(false) {
                    Err(e) => Err(e),
                    Ok(expressions) => Ok(Statement::Printf(expressions)),
                }
            },
            TokenKind::Gsub => self.parse_gsub_function(),
            TokenKind::If => self.parse_if_statement(),
            TokenKind::While => self.parse_while_statement(),
            TokenKind::For => self.parse_for_statement(),
            TokenKind::Exit => {
                self.next_token();
                Ok(Statement::Exit)
            },
            TokenKind::Identifier => self.parse_assignment_statement(),
            TokenKind::DollarSign => self.parse_field_assignment_statement(),
            TokenKind::Increment => self.parse_pre_increment_statement(),
            _ => Err(self.fail(Expected::Statement)),
        }
    }

    /// Reads an `if` statement; `if` is the token ahead.
    fn parse_if_statement(&mut self) -> (r: Result<Statement, ParseError>)
        requires
            old(self).wf(),
            old(self).state().current.kind == TokenKind::If,
        ensures
            r is Ok ==> statement_stands(old(self).input(), r->Ok_0),
            final(self).wf(),
            final(self).input() == old(self).input(),
            agrees(r, final(self).state(), statement_at(old(self).input(), old(self).state())),
            final(self).worth() <= old(self).worth(),
            r is Ok ==> final(self).worth() < old(self).worth(),
        decreases old(self).worth(), 3int,
    {
        self.next_token();
        let condition = match self.parse_condition() {
            Err(e) => {
                return Err(e);
            },
            Ok(condition) => condition,
        };
        match self.parse_body() {
            Err(e) => Err(e),
            Ok(then_statements) => Ok(Statement::If { condition, then_statements }),
        }
    }

    /// Reads a `while` statement; `while` is the token ahead.
    fn parse_while_statement(&mut self) -> (r: Result<Statement, ParseError>)
        requires
            old(self).wf(),
            old(self).state().current.kind == TokenKind::While,
        ensures
            r is Ok ==> statement_stands(old(self).input(), r->Ok_0),
            final(self).wf(),
            final(self).input() == old(self).input(),
            agrees(r, final(self).state(), statement_at(old(self).input(), old(self).state())),
            final(self).worth() <= old(self).worth(),
            r is Ok ==> final(self).worth() < old(self).worth(),
        decreases old(self).worth(), 3int,
    {
        self.next_token();
        let condition = match self.parse_condition() {
            Err(e) => {
                return Err(e);
            },
            Ok(condition) => condition,
        };
        match self.parse_body() {
            Err(e) => Err(e),
            Ok(statements) => Ok(Statement::While { condition, statements }),
        }
    }

    /// Reads a `for` statement; `for` is the token ahead.
    #[verifier::rlimit(60)]
    fn parse_for_statement(&mut self) -> (r: Result<Statement, ParseError>)
        requires
            old(self).wf(),
            old(self).state().current.kind == TokenKind::For,
        ensures
            r is Ok ==> statement_stands(old(self).input(), r->Ok_0),
            final(self).wf(),
            final(self).input() == old(self).input(),
            agrees(r, final(self).state(), statement_at(old(self).input(), old(self).state())),
            final(self).worth() <= old(self).worth(),
            r is Ok ==> final(self).worth() < old(self).worth(),
        decreases old(self).worth(), 3int,
    {
        self.next_token();
        match self.expect(TokenKind::LeftParen, Expected::LeftParen, false) {
            Err(e) => {
                return Err(e);
            },
            Ok(()) => {},
        }
        let init = match self.parse_statement() {
            Err(e) => {
                return Err(e);
            },
            Ok(init) => init,
        };
        match self.expect(TokenKind::Semicolon, Expected::Semicolon, true) {
            Err(e) => {
                return Err(e);
            },
            Ok(()) => {},
        }
        let condition = match self.parse_expression() {
            Err(e) => {
                return Err(e);
            },
            Ok(condition) => condition,
        };
        match self.expect(TokenKind::Semicolon, Expected::Semicolon, false) {
            Err(e) => {
                return Err(e);
            },
            Ok(()) => {},
        }
        let update = match self.parse_statement() {
            Err(e) => {
                return Err(e);
            },
            Ok(update) => update,
        };
        match self.expect(TokenKind::RightParen, Expected::RightParen, false) {
            Err(e) => {
                return Err(e);
            },
            Ok(()) => {},
        }
        self.skip_separators();
        match self.parse_body() {
            Err(e) => Err(e),
            Ok(statements) => Ok(
                Statement::For {
                    init: Box::new(init),
                    condition,
                    update: Box::new(update),
                    statements,
                },
            ),
        }
    }

    /// Reads `gsub(pattern, replacement)`; `gsub` is the token ahead.
    fn parse_gsub_function(&mut self) -> (r: Result<Statement, ParseError>)
        requires
            old(self).wf(),
            old(self).state().current.kind == TokenKind::Gsub,
        ensures
            r is Ok ==> statement_stands(old(self).input(), r->Ok_0),
            final(self).wf(),
            final(self).input() == old(self).input(),
            agrees(r, final(self).state(), statement_at(old(self).input(), old(self).state())),
            final(self).worth() <= old(self).worth(),
            r is Ok ==> final(self).worth() < old(self).worth(),
    {
        self.next_token();
        match self.expect(TokenKind::LeftParen, Expected::LeftParen, true) {
            Err(e) => {
                return Err(e);
            },
            Ok(()) => {},
        }
        let pattern = match self.parse_expression() {
            Err(e) => {
                return Err(e);
            },
            Ok(pattern) => pattern,
        };
        match self.expect(TokenKind::Comma, Expected::Comma, false) {
            Err(e) => {
                return Err(e);
            },
            Ok(()) => {},
        }
        let replacement = match self.parse_expression() {
            Err(e) => {
                return Err(e);
            },
            Ok(replacement) => replacement,
        };
        match self.expect(TokenKind::RightParen, Expected::RightParen, false) {
            Err(e) => Err(e),
            Ok(()) => Ok(Statement::Gsub { pattern, replacement }),
        }
    }

    /// Reads the action of a rule; the opening brace is the token ahead, and
    /// the closing brace is left as the token ahead.
    fn parse_action(&mut self) -> (r: Result<Action, ParseError>)
        requires
            old(self).wf(),
        ensures
            r is Ok ==> statements_stand(old(self).input(), r->Ok_0.statements),
            final(self).wf(),
            final(self).input() == old(self).input(),
            agrees(r, final(self).state(), action_at(old(self).input(), old(self).state())),
            final(self).worth() <= old(self).worth(),
            r is Ok ==> final(self).worth() < old(self).worth(),
    {
        if self.current_token.kind != TokenKind::LeftCurlyBrace {
            return Err(self.fail(Expected::LeftBrace));
        }
        self.next_token();
        match self.parse_statements() {
            Err(e) => Err(e),
            Ok(statements) => Ok(Action { statements }),
        }
    }

    /// Reads a rule that starts with a pattern.
    fn parse_pattern_rule(&mut self) -> (r: Result<Rule, ParseError>)
        requires
            old(self).wf(),
        ensures
            r is Ok ==> rule_stands(old(self).input(), r->Ok_0),
            final(self).wf(),
            final(self).input() == old(self).input(),
            agrees(r, final(self).state(), pattern_rule_at(old(self).input(), old(self).state())),
            final(self).worth() <= old(self).worth(),
            r is Ok ==> final(self).worth() < old(self).worth(),
    {
        let first = match self.parse_expression() {
            Err(e) => {
                return Err(e);
            },
            Ok(first) => first,
        };
        let pattern = if self.current_token.kind == TokenKind::Comma {
            let operator = self.current_token.duplicate();
            self.next_token_with_regex(true);
            match self.parse_expression() {
                Err(e) => {
                    return Err(e);
                },
                Ok(second) => Expression::Infix {
                    left: Box::new(first),
                    operator,
                    right: Box::new(second),
                },
            }
        } else {
            first
        };
        if self.current_token.kind == TokenKind::LeftCurlyBrace {
            match self.parse_action() {
                Err(e) => Err(e),
                Ok(action) => Ok(
                    Rule::PatternAction { pattern: Some(pattern), action: Some(action) },
                ),
            }
        } else {
            Ok(Rule::PatternAction { pattern: Some(pattern), action: None })
        }
    }

    /// Reads the next rule, if there is one before the end of the script.
    fn parse_next_rule(&mut self) -> (r: Result<Option<Rule>, ParseError>)
        requires
            old(self).wf(),
        ensures
            r is Ok && r->Ok_0 is Some ==> rule_stands(old(self).input(), r->Ok_0->Some_0),
            final(self).wf(),
            final(self).input() == old(self).input(),
            rule_agrees(r, final(self).state(), rule_at(old(self).input(), old(self).state())),
            final(self).worth() <= old(self).worth(),
            r is Ok && old(self).state().current.kind != TokenKind::Eof ==> final(self).worth()
                < old(self).worth(),
    {
        while self.current_token.kind == TokenKind::NewLine
            invariant
                self.wf(),
                self.input() == old(self).input(),
                self.worth() <= old(self).worth(),
                old(self).state().current.kind != TokenKind::Eof && self.state() != old(
                    self,
                ).state() ==> self.worth() < old(self).worth(),
                rule_at(old(self).input(), old(self).state()) == rule_at(
                    self.input(),
                    self.state(),
                ),
            decreases self.worth(),
        {
            self.next_token_with_regex(true);
        }
        let kind = self.current_token.kind;
        if kind == TokenKind::Eof {
            Ok(None)
        } else if kind == TokenKind::Begin {
            self.next_token();
            match self.parse_action() {
                Err(e) => Err(e),
                Ok(action) => Ok(Some(Rule::Begin(action))),
            }
        } else if kind == TokenKind::End {
            self.next_token();
            match self.parse_action() {
                Err(e) => Err(e),
                Ok(action) => Ok(Some(Rule::End(action))),
            }
        } else if kind == TokenKind::LeftCurlyBrace {
            match self.parse_action() {
                Err(e) => Err(e),
                Ok(action) => Ok(Some(Rule::Action(action))),
            }
        } else if pattern_start(kind) {
            match self.parse_pattern_rule() {
                Err(e) => Err(e),
                Ok(rule) => Ok(Some(rule)),
            }
        } else {
            Err(self.fail(Expected::Rule))
        }
    }

    /// Parses the script to its end and returns the program it stands for,
    /// or the error at the first token that fits no rule of the grammar.
    /// After a program is returned the token ahead is the end of the input.
    pub fn parse_program(&mut self) -> (r: Result<Program, ParseError>)
        requires
            old(self).wf(),
        ensures
            r is Ok ==> r->Ok_0.stands(old(self).input()),
            final(self).wf(),
            final(self).input() == old(self).input(),
            match rules_at(old(self).input(), old(self).state(), empty_program()) {
                Ok(program) => r is Ok && r->Ok_0@ == program,
                Err(e) => r is Err && r->Err_0@ == e,
            },
            r is Ok ==> final(self).state().current.kind == TokenKind::Eof,
    {
        let mut program = Program::new();
        loop
            invariant
                self.wf(),
                self.input() == old(self).input(),
                rules_at(old(self).input(), old(self).state(), empty_program()) == rules_at(
                    self.input(),
                    self.state(),
                    program@,
                ),
                program.stands(self.input()),
            decreases self.worth(),
        {
            if self.is_eof() {
                return Ok(program);
            }
            match self.parse_next_rule() {
                Err(e) => {
                    return Err(e);
                },
                Ok(Some(rule)) => {
                    match rule {
                        Rule::Begin(action) => program.add_begin_block(Rule::Begin(action)),
                        Rule::End(action) => program.add_end_block(Rule::End(action)),
                        rule => program.add_rule(rule),
                    }
                },
                Ok(None) => {},
            }
            self.next_token_with_regex(true);
        }
    }
}

/// Parses `script` and returns the program it stands for.
pub fn parse_script(script: &str) -> (r: Result<Program, ParseError>)
    ensures
        match parse(script@) {
            Ok(program) => r is Ok && r->Ok_0@ == program,
            Err(e) => r is Err && r->Err_0@ == e,
        },
        r is Ok ==> r->Ok_0.stands(script@),
{
    let mut parser = Parser::new(Lexer::new(script));
    parser.parse_program()
}

} // verus!
