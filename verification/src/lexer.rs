//! The lexer: from the characters of a script to tokens.
//!
//! [`lex`] says, for a script, a position in it and the regex flag, which
//! token starts there and where the next one is looked for. The [`Lexer`]
//! walks a script with a cursor and returns exactly these tokens.

use vstd::prelude::*;
use crate::text::{
    char_at, chars_of, lemma_run_end_bounds, run_end, scan_run, string_of_range, CharClass,
};
use crate::token::{function_kind, function_of, keyword_kind, keyword_of, kind_string, kind_text, Token, TokenKind};

verus! {

/// Whether `ch` is an ASCII letter.
pub open spec fn spec_is_ascii_alphabetic(ch: Option<char>) -> bool {
    match ch {
        Some(c) => ('a' <= c && c <= 'z') || ('A' <= c && c <= 'Z'),
        None => false,
    }
}

/// Whether `ch` is a character that the lexer skips between tokens: a space,
/// a tab or a carriage return.
pub open spec fn spec_is_whitespace(ch: Option<char>) -> bool {
    match ch {
        Some(c) => c == ' ' || c == '\t' || c == '\r',
        None => false,
    }
}

/// Whether `ch` is an ASCII decimal digit.
pub open spec fn spec_is_digit(ch: Option<char>) -> bool {
    match ch {
        Some(c) => '0' <= c && c <= '9',
        None => false,
    }
}

#[verifier::when_used_as_spec(spec_is_ascii_alphabetic)]
pub fn is_ascii_alphabetic(ch: Option<char>) -> (r: bool)
    ensures
        r == spec_is_ascii_alphabetic(ch),
{
    match ch {
        Some(c) => (c >= 'a' && c <= 'z') || (c >= 'A' && c <= 'Z'),
        None => false,
    }
}

#[verifier::when_used_as_spec(spec_is_whitespace)]
pub fn is_whitespace(ch: Option<char>) -> (r: bool)
    ensures
        r == spec_is_whitespace(ch),
{
    match ch {
        Some(c) => c == ' ' || c == '\t' || c == '\r',
        None => false,
    }
}

#[verifier::when_used_as_spec(spec_is_digit)]
pub fn is_digit(ch: Option<char>) -> (r: bool)
    ensures
        r == spec_is_digit(ch),
{
    match ch {
        Some(c) => c >= '0' && c <= '9',
        None => false,
    }
}

/// The position of the first token character at or after `pos`: blanks are
/// skipped, and so is a comment, from `#` up to the newline that ends it.
pub open spec fn skip_trivia(input: Seq<char>, pos: int) -> int
    decreases input.len() - pos,
{
    if 0 <= pos < input.len() {
        if spec_is_whitespace(Some(input[pos])) {
            skip_trivia(input, pos + 1)
        } else if input[pos] == '#' {
            run_end(input, pos, CharClass::Comment)
        } else {
            pos
        }
    } else {
        pos
    }
}

/// The position of the first `delim` at or after `pos` that no backslash
/// escapes, or the length of `input` if there is none.
pub open spec fn closing(input: Seq<char>, pos: int, delim: char) -> int
    decreases input.len() - pos,
{
    if pos < 0 || pos >= input.len() {
        input.len() as int
    } else if input[pos] == delim {
        pos
    } else if input[pos] == '\\' && pos + 1 < input.len() {
        closing(input, pos + 2, delim)
    } else {
        closing(input, pos + 1, delim)
    }
}

/// The operator or punctuation mark that starts with `c0`, given the
/// character `c1` after it: the two-character form where there is one,
/// else the one-character form, else `Illegal`.
pub open spec fn operator_kind(c0: char, c1: Option<char>) -> TokenKind {
    if c0 == '{' {
        TokenKind::LeftCurlyBrace
    } else if c0 == '}' {
        TokenKind::RightCurlyBrace
    } else if c0 == '(' {
        TokenKind::LeftParen
    } else if c0 == ')' {
        TokenKind::RightParen
    } else if c0 == '[' {
        TokenKind::LeftSquareBracket
    } else if c0 == ']' {
        TokenKind::RightSquareBracket
    } else if c0 == ',' {
        TokenKind::Comma
    } else if c0 == ';' {
        TokenKind::Semicolon
    } else if c0 == '\n' {
        TokenKind::NewLine
    } else if c0 == '+' {
        if c1 == Some('=') {
            TokenKind::AddAssign
        } else if c1 == Some('+') {
            TokenKind::Increment
        } else {
            TokenKind::Plus
        }
    } else if c0 == '-' {
        if c1 == Some('=') {
            TokenKind::SubtractAssign
        } else if c1 == Some('-') {
            TokenKind::Decrement
        } else {
            TokenKind::Minus
        }
    } else if c0 == '*' {
        if c1 == Some('=') {
            TokenKind::MultiplyAssign
        } else {
            TokenKind::Asterisk
        }
    } else if c0 == '/' {
        if c1 == Some('=') {
            TokenKind::DivideAssign
        } else {
            TokenKind::Division
        }
    } else if c0 == '%' {
        if c1 == Some('=') {
            TokenKind::ModuloAssign
        } else {
            TokenKind::Percent
        }
    } else if c0 == '^' {
        if c1 == Some('=') {
            TokenKind::PowerAssign
        } else {
            TokenKind::Caret
        }
    } else if c0 == '!' {
        if c1 == Some('=') {
            TokenKind::NotEqual
        } else if c1 == Some('~') {
            TokenKind::NoMatch
        } else {
            TokenKind::ExclamationMark
        }
    } else if c0 == '>' {
        if c1 == Some('=') {
            TokenKind::GreaterThanOrEqual
        } else if c1 == Some('>') {
            TokenKind::Append
        } else {
            TokenKind::GreaterThan
        }
    } else if c0 == '<' {
        if c1 == Some('=') {
            TokenKind::LessThanOrEqual
        } else {
            TokenKind::LessThan
        }
    } else if c0 == '|' {
        if c1 == Some('|') {
            TokenKind::Or
        } else {
            TokenKind::Pipe
        }
    } else if c0 == '&' {
        if c1 == Some('&') {
            TokenKind::And
        } else {
            TokenKind::Illegal
        }
    } else if c0 == '=' {
        if c1 == Some('=') {
            TokenKind::Equal
        } else {
            TokenKind::Assign
        }
    } else if c0 == '?' {
        TokenKind::QuestionMark
    } else if c0 == ':' {
        TokenKind::Colon
    } else if c0 == '~' {
        TokenKind::Tilde
    } else if c0 == '$' {
        TokenKind::DollarSign
    } else {
        TokenKind::Illegal
    }
}

/// Whether `kind` is an operator that is written with two characters.
pub open spec fn is_two_character(kind: TokenKind) -> bool {
    kind == TokenKind::AddAssign || kind == TokenKind::SubtractAssign || kind
        == TokenKind::MultiplyAssign || kind == TokenKind::DivideAssign || kind
        == TokenKind::ModuloAssign || kind == TokenKind::PowerAssign || kind == TokenKind::Or
        || kind == TokenKind::And || kind == TokenKind::NoMatch || kind == TokenKind::Equal
        || kind == TokenKind::LessThanOrEqual || kind == TokenKind::GreaterThanOrEqual || kind
        == TokenKind::NotEqual || kind == TokenKind::Increment || kind == TokenKind::Decrement
        || kind == TokenKind::Append
}

/// What the lexer finds at a position: the token, and where to go on.
pub struct Lexed {
    /// The kind of the token.
    pub kind: TokenKind,
    /// Its text.
    pub literal: Seq<char>,
    /// The position of its first character.
    pub start: int,
    /// The position after its last character.
    pub next: int,
}

/// A token of kind `kind` with the kind's fixed text.
pub open spec fn fixed(kind: TokenKind, start: int, next: int) -> Lexed {
    Lexed { kind, literal: kind_text(kind), start, next }
}

/// The string or regex literal whose opening delimiter stands at `start`.
/// The text is what stands between the delimiters, escapes untouched. Without
/// a closing delimiter the rest of the input is one illegal token.
pub open spec fn lex_delimited(input: Seq<char>, start: int, delim: char, kind: TokenKind) -> Lexed {
    let close = closing(input, start + 1, delim);
    if close < input.len() {
        Lexed { kind, literal: input.subrange(start + 1, close), start, next: close + 1 }
    } else {
        fixed(TokenKind::Illegal, start, close)
    }
}

/// The word that starts at `start`: a keyword, else the name of a built-in
/// function, else an identifier.
pub open spec fn lex_word(input: Seq<char>, start: int) -> Lexed {
    let end = run_end(input, start, CharClass::Word);
    let word = input.subrange(start, end);
    let kind = match keyword_kind(word) {
        Some(kind) => kind,
        None => match function_kind(word) {
            Some(kind) => kind,
            None => TokenKind::Identifier,
        },
    };
    Lexed { kind, literal: word, start, next: end }
}

/// The number that starts at `start`: a hexadecimal literal of one to sixteen
/// digits after `0x` or `0X`, or decimal digits with an optional fraction, or
/// a fraction that starts with the dot.
pub open spec fn lex_number(input: Seq<char>, start: int) -> Lexed {
    if input[start] == '0' && (char_at(input, start + 1) == Some('x') || char_at(input, start + 1)
        == Some('X')) {
        let end = run_end(input, start + 2, CharClass::HexDigit);
        if 1 <= end - (start + 2) <= 16 {
            Lexed { kind: TokenKind::Number, literal: input.subrange(start, end), start, next: end }
        } else {
            fixed(TokenKind::Illegal, start, end)
        }
    } else if input[start] == '.' {
        let end = run_end(input, start + 1, CharClass::Digit);
        Lexed { kind: TokenKind::Number, literal: input.subrange(start, end), start, next: end }
    } else {
        let whole = run_end(input, start, CharClass::Digit);
        let end = if char_at(input, whole) == Some('.') {
            run_end(input, whole + 1, CharClass::Digit)
        } else {
            whole
        };
        Lexed { kind: TokenKind::Number, literal: input.subrange(start, end), start, next: end }
    }
}

/// The token that the lexer returns when its cursor stands at `pos`, and the
/// position of the cursor afterwards. A `/` opens a regex literal only if
/// `allow_regex` is set. At the end of the input the token is `Eof`, and the
/// cursor stays.
pub open spec fn lex(input: Seq<char>, pos: int, allow_regex: bool) -> Lexed {
    let start = skip_trivia(input, pos);
    match char_at(input, start) {
        None => fixed(TokenKind::Eof, start, start),
        Some(c) => {
            let c1 = char_at(input, start + 1);
            if c == '"' {
                lex_delimited(input, start, '"', TokenKind::String)
            } else if c == '/' && allow_regex {
                lex_delimited(input, start, '/', TokenKind::Regex)
            } else if spec_is_ascii_alphabetic(Some(c)) || c == '_' {
                lex_word(input, start)
            } else if spec_is_digit(Some(c)) || (c == '.' && spec_is_digit(c1)) {
                lex_number(input, start)
            } else if c == '\\' && c1 == Some('\n') {
                fixed(TokenKind::NewLine, start, start + 2)
            } else {
                let kind = operator_kind(c, c1);
                fixed(
                    kind,
                    start,
                    if is_two_character(kind) {
                        start + 2
                    } else {
                        start + 1
                    },
                )
            }
        },
    }
}

/// Skipping blanks and comments never moves the cursor back, nor past the end.
pub proof fn lemma_skip_trivia_bounds(input: Seq<char>, pos: int)
    ensures
        pos <= skip_trivia(input, pos),
        pos <= input.len() ==> skip_trivia(input, pos) <= input.len(),
    decreases input.len() - pos,
{
    if 0 <= pos < input.len() {
        if spec_is_whitespace(Some(input[pos])) {
            lemma_skip_trivia_bounds(input, pos + 1);
        } else if input[pos] == '#' {
            lemma_run_end_bounds(input, pos, CharClass::Comment);
        }
    }
}

/// The closing delimiter is looked for from `pos` on, and not past the end.
pub proof fn lemma_closing_bounds(input: Seq<char>, pos: int, delim: char)
    ensures
        0 <= pos <= input.len() ==> pos <= closing(input, pos, delim) <= input.len(),
    decreases input.len() - pos,
{
    if 0 <= pos < input.len() {
        if input[pos] == delim {
        } else if input[pos] == '\\' && pos + 1 < input.len() {
            lemma_closing_bounds(input, pos + 2, delim);
        } else {
            lemma_closing_bounds(input, pos + 1, delim);
        }
    }
}

/// The lexer goes forward: a token starts at or after the cursor and ends at
/// or after its start, inside the input; and every token but `Eof` holds at
/// least one character.
pub proof fn lemma_lex_progress(input: Seq<char>, pos: int, allow_regex: bool)
    requires
        0 <= pos <= input.len(),
    ensures
        pos <= lex(input, pos, allow_regex).start <= lex(input, pos, allow_regex).next
            <= input.len(),
        lex(input, pos, allow_regex).kind != TokenKind::Eof ==> lex(
            input,
            pos,
            allow_regex,
        ).start < lex(input, pos, allow_regex).next,
        lex(input, pos, allow_regex).kind == TokenKind::Eof ==> lex(input, pos, allow_regex).next
            == input.len(),
{
    let start = skip_trivia(input, pos);
    lemma_skip_trivia_bounds(input, pos);
    if start < input.len() {
        lemma_closing_bounds(input, start + 1, '"');
        lemma_closing_bounds(input, start + 1, '/');
        lemma_run_end_bounds(input, start, CharClass::Word);
        lemma_run_end_bounds(input, start + 1, CharClass::Word);
        lemma_run_end_bounds(input, start, CharClass::Digit);
        lemma_run_end_bounds(input, start + 1, CharClass::Digit);
        lemma_run_end_bounds(input, start + 2, CharClass::HexDigit);
        let whole = run_end(input, start, CharClass::Digit);
        lemma_run_end_bounds(input, whole + 1, CharClass::Digit);
        let c = input[start];
        let c1 = char_at(input, start + 1);
        assert(keyword_kind(input.subrange(start, run_end(input, start, CharClass::Word)))
            != Some(TokenKind::Eof));
        assert(function_kind(input.subrange(start, run_end(input, start, CharClass::Word)))
            != Some(TokenKind::Eof));
        assert(operator_kind(c, c1) != TokenKind::Eof);
        if is_two_character(operator_kind(c, c1)) {
            assert(c1.is_some());
        }
    }
}

/// The lexer: the characters of a script, a cursor, and the flag that says
/// whether a `/` at the cursor opens a regex literal.
#[derive(Debug)]
pub struct Lexer {
    input: Vec<char>,
    position: usize,
    allow_regex: bool,
}

/// The operator or punctuation mark that starts with `c0`.
fn operator_of(c0: char, c1: Option<char>) -> (kind: TokenKind)
    ensures
        kind == operator_kind(c0, c1),
{
    let eq = c1 == Some('=');
    if c0 == '{' {
        TokenKind::LeftCurlyBrace
    } else if c0 == '}' {
        TokenKind::RightCurlyBrace
    } else if c0 == '(' {
        TokenKind::LeftParen
    } else if c0 == ')' {
        TokenKind::RightParen
    } else if c0 == '[' {
        TokenKind::LeftSquareBracket
    } else if c0 == ']' {
        TokenKind::RightSquareBracket
    } else if c0 == ',' {
        TokenKind::Comma
    } else if c0 == ';' {
        TokenKind::Semicolon
    } else if c0 == '\n' {
        TokenKind::NewLine
    } else if c0 == '+' {
        if eq {
            TokenKind::AddAssign
        } else if c1 == Some('+') {
            TokenKind::Increment
        } else {
            TokenKind::Plus
        }
    } else if c0 == '-' {
        if eq {
            TokenKind::SubtractAssign
        } else if c1 == Some('-') {
            TokenKind::Decrement
        } else {
            TokenKind::Minus
        }
    } else if c0 == '*' {
        if eq {
            TokenKind::MultiplyAssign
        } else {
            TokenKind::Asterisk
        }
    } else if c0 == '/' {
        if eq {
            TokenKind::DivideAssign
        } else {
            TokenKind::Division
        }
    } else if c0 == '%' {
        if eq {
            TokenKind::ModuloAssign
        } else {
            TokenKind::Percent
        }
    } else if c0 == '^' {
        if eq {
            TokenKind::PowerAssign
        } else {
            TokenKind::Caret
        }
    } else if c0 == '!' {
        if eq {
            TokenKind::NotEqual
        } else if c1 == Some('~') {
            TokenKind::NoMatch
        } else {
            TokenKind::ExclamationMark
        }
    } else if c0 == '>' {
        if eq {
            TokenKind::GreaterThanOrEqual
        } else if c1 == Some('>') {
            TokenKind::Append
        } else {
            TokenKind::GreaterThan
        }
    } else if c0 == '<' {
        if eq {
            TokenKind::LessThanOrEqual
        } else {
            TokenKind::LessThan
        }
    } else if c0 == '|' {
        if c1 == Some('|') {
            TokenKind::Or
        } else {
            TokenKind::Pipe
        }
    } else if c0 == '&' {
        if c1 == Some('&') {
            TokenKind::And
        } else {
            TokenKind::Illegal
        }
    } else if c0 == '=' {
        if eq {
            TokenKind::Equal
        } else {
            TokenKind::Assign
        }
    } else if c0 == '?' {
        TokenKind::QuestionMark
    } else if c0 == ':' {
        TokenKind::Colon
    } else if c0 == '~' {
        TokenKind::Tilde
    } else if c0 == '$' {
        TokenKind::DollarSign
    } else {
        TokenKind::Illegal
    }
}

/// Whether `kind` is an operator that is written with two characters.
fn two_character(kind: TokenKind) -> (r: bool)
    ensures
        r == is_two_character(kind),
{
    match kind {
        TokenKind::AddAssign
        | TokenKind::SubtractAssign
        | TokenKind::MultiplyAssign
        | TokenKind::DivideAssign
        | TokenKind::ModuloAssign
        | TokenKind::PowerAssign
        | TokenKind::Or
        | TokenKind::And
        | TokenKind::NoMatch
        | TokenKind::Equal
        | TokenKind::LessThanOrEqual
        | TokenKind::GreaterThanOrEqual
        | TokenKind::NotEqual
        | TokenKind::Increment
        | TokenKind::Decrement
        | TokenKind::Append => true,
        _ => false,
    }
}

impl Lexer {
    /// The script that is read.
    pub closed spec fn input(&self) -> Seq<char> {
        self.input@
    }

    /// The position of the cursor.
    pub closed spec fn position(&self) -> int {
        self.position as int
    }

    /// Whether a `/` at the cursor opens a regex literal.
    pub closed spec fn allow_regex(&self) -> bool {
        self.allow_regex
    }

    /// A lexer at the start of `src`, with the regex flag off.
    pub fn new(src: &str) -> (lexer: Lexer)
        ensures
            lexer.input() == src@,
            lexer.position() == 0,
            !lexer.allow_regex(),
    {
        Lexer { input: chars_of(src), position: 0, allow_regex: false }
    }

    /// Sets the flag that says whether a `/` at the cursor opens a regex
    /// literal or is the division operator.
    pub fn set_allow_regex(&mut self, allow_regex: bool)
        ensures
            final(self).input() == old(self).input(),
            final(self).position() == old(self).position(),
            final(self).allow_regex() == allow_regex,
    {
        self.allow_regex = allow_regex;
    }

    /// The number of characters from the cursor to the end of the script.
    pub open spec fn remaining(&self) -> nat {
        if self.position() <= self.input().len() {
            (self.input().len() - self.position()) as nat
        } else {
            0
        }
    }

    /// Returns the token at the cursor and moves the cursor behind it. At the
    /// end of the script the token is `Eof`, however often it is asked for.
    pub fn next_token(&mut self) -> (token: Token)
        ensures
            final(self).input() == old(self).input(),
            final(self).allow_regex() == old(self).allow_regex(),
            token@.kind == lex(old(self).input(), old(self).position(), old(self).allow_regex()).kind,
            token@.literal == lex(
                old(self).input(),
                old(self).position(),
                old(self).allow_regex(),
            ).literal,
            token@.offset == lex(
                old(self).input(),
                old(self).position(),
                old(self).allow_regex(),
            ).start,
            final(self).position() == lex(
                old(self).input(),
                old(self).position(),
                old(self).allow_regex(),
            ).next,
            final(self).remaining() <= old(self).remaining(),
            token@.kind != TokenKind::Eof && old(self).position() <= old(self).input().len()
                ==> final(self).remaining() < old(self).remaining(),
    {
        let ghost input = self.input@;
        let ghost pos = self.position as int;
        let start = self.skip_whitespace();
        proof {
            if 0 <= pos <= input.len() {
                lemma_lex_progress(input, pos, self.allow_regex);
            } else {
                assert(skip_trivia(input, pos) == pos);
            }
        }
        if start >= self.input.len() {
            self.position = start;
            return Token { kind: TokenKind::Eof, literal: kind_string(TokenKind::Eof), offset: start };
        }
        let c = self.input[start];
        let c1 = self.peek_char(start + 1);
        if c == '"' {
            self.read_delimited(start, '"', TokenKind::String)
        } else if c == '/' && self.allow_regex {
            self.read_delimited(start, '/', TokenKind::Regex)
        } else if is_ascii_alphabetic(Some(c)) || c == '_' {
            self.read_identifier(start)
        } else if is_digit(Some(c)) || (c == '.' && is_digit(c1)) {
            self.read_number(start)
        } else if c == '\\' && c1 == Some('\n') {
            self.position = start + 2;
            Token {
                kind: TokenKind::NewLine,
                literal: kind_string(TokenKind::NewLine),
                offset: start,
            }
        } else {
            let kind = operator_of(c, c1);
            if two_character(kind) {
                assert(c1.is_some());
                self.position = start + 2;
            } else {
                self.position = start + 1;
            }
            Token { kind, literal: kind_string(kind), offset: start }
        }
    }

    /// The character at `index`, if there is one.
    fn peek_char(&self, index: usize) -> (c: Option<char>)
        ensures
            c == char_at(self.input@, index as int),
    {
        if index < self.input.len() {
            Some(self.input[index])
        } else {
            None
        }
    }

    /// The position of the first token character at or after the cursor.
    fn skip_whitespace(&self) -> (start: usize)
        ensures
            start == skip_trivia(self.input@, self.position as int),
    {
        let mut i: usize = self.position;
        while i < self.input.len() && is_whitespace(Some(self.input[i]))
            invariant
                skip_trivia(self.input@, self.position as int) == skip_trivia(
                    self.input@,
                    i as int,
                ),
            decreases self.input.len() - i,
        {
            i += 1;
        }
        if i < self.input.len() && self.input[i] == '#' {
            self.scan_run(i, CharClass::Comment)
        } else {
            i
        }
    }

    /// The end of the longest run of characters of `class` that starts at
    /// `from`.
    fn scan_run(&self, from: usize, class: CharClass) -> (end: usize)
        ensures
            end == run_end(self.input@, from as int, class),
    {
        scan_run(&self.input, from, class)
    }

    /// The position of the first `delim` at or after `from` that no
    /// backslash escapes, or the length of the script.
    fn find_closing(&self, from: usize, delim: char) -> (close: usize)
        requires
            from <= self.input@.len(),
        ensures
            close == closing(self.input@, from as int, delim),
            from <= close <= self.input@.len(),
    {
        let mut i: usize = from;
        loop
            invariant
                from <= i <= self.input@.len(),
                closing(self.input@, from as int, delim) == closing(self.input@, i as int, delim),
            decreases self.input.len() - i,
        {
            if i >= self.input.len() {
                return i;
            }
            let c = self.input[i];
            if c == delim {
                return i;
            }
            if c == '\\' && i + 1 < self.input.len() {
                i += 2;
            } else {
                i += 1;
            }
        }
    }

    /// Reads the string or regex literal whose opening delimiter stands at
    /// `start`.
    fn read_delimited(&mut self, start: usize, delim: char, kind: TokenKind) -> (token: Token)
        requires
            start < old(self).input@.len(),
        ensures
            final(self).input == old(self).input,
            final(self).allow_regex == old(self).allow_regex,
            token@.kind == lex_delimited(old(self).input@, start as int, delim, kind).kind,
            token@.literal == lex_delimited(old(self).input@, start as int, delim, kind).literal,
            token@.offset == start,
            final(self).position == lex_delimited(old(self).input@, start as int, delim, kind).next,
    {
        let n = self.input.len();
        let close = self.find_closing(start + 1, delim);
        if close < n {
            self.position = close + 1;
            Token { kind, literal: string_of_range(&self.input, start + 1, close), offset: start }
        } else {
            self.position = close;
            Token {
                kind: TokenKind::Illegal,
                literal: kind_string(TokenKind::Illegal),
                offset: start,
            }
        }
    }

    /// Reads the word that starts at `start`.
    fn read_identifier(&mut self, start: usize) -> (token: Token)
        requires
            start < old(self).input@.len(),
        ensures
            final(self).input == old(self).input,
            final(self).allow_regex == old(self).allow_regex,
            token@.kind == lex_word(old(self).input@, start as int).kind,
            token@.literal == lex_word(old(self).input@, start as int).literal,
            token@.offset == start,
            final(self).position == lex_word(old(self).input@, start as int).next,
    {
        let end = self.scan_run(start, CharClass::Word);
        proof {
            lemma_run_end_bounds(self.input@, start as int, CharClass::Word);
        }
        let word = string_of_range(&self.input, start, end);
        let kind = match keyword_of(&word) {
            Some(kind) => kind,
            None => match function_of(&word) {
                Some(kind) => kind,
                None => TokenKind::Identifier,
            },
        };
        self.position = end;
        Token { kind, literal: word, offset: start }
    }

    /// Reads the number that starts at `start`.
    fn read_number(&mut self, start: usize) -> (token: Token)
        requires
            start < old(self).input@.len(),
        ensures
            final(self).input == old(self).input,
            final(self).allow_regex == old(self).allow_regex,
            token@.kind == lex_number(old(self).input@, start as int).kind,
            token@.literal == lex_number(old(self).input@, start as int).literal,
            token@.offset == start,
            final(self).position == lex_number(old(self).input@, start as int).next,
    {
        let n = self.input.len();
        let c = self.input[start];
        let c1 = self.peek_char(start + 1);
        proof {
            lemma_run_end_bounds(self.input@, start as int, CharClass::Digit);
            lemma_run_end_bounds(self.input@, start + 1, CharClass::Digit);
            lemma_run_end_bounds(self.input@, start + 2, CharClass::HexDigit);
        }
        if c == '0' && (c1 == Some('x') || c1 == Some('X')) {
            let end = self.scan_run(start + 2, CharClass::HexDigit);
            self.position = end;
            if end - (start + 2) >= 1 && end - (start + 2) <= 16 {
                Token {
                    kind: TokenKind::Number,
                    literal: string_of_range(&self.input, start, end),
                    offset: start,
                }
            } else {
                Token {
                    kind: TokenKind::Illegal,
                    literal: kind_string(TokenKind::Illegal),
                    offset: start,
                }
            }
        } else if c == '.' {
            let end = self.scan_run(start + 1, CharClass::Digit);
            self.position = end;
            Token {
                kind: TokenKind::Number,
                literal: string_of_range(&self.input, start, end),
                offset: start,
            }
        } else {
            let whole = self.scan_run(start, CharClass::Digit);
            let end = if self.peek_char(whole) == Some('.') {
                proof {
                    lemma_run_end_bounds(self.input@, whole + 1, CharClass::Digit);
                }
                self.scan_run(whole + 1, CharClass::Digit)
            } else {
                whole
            };
            self.position = end;
            Token {
                kind: TokenKind::Number,
                literal: string_of_range(&self.input, start, end),
                offset: start,
            }
        }
    }
}

} // verus!
