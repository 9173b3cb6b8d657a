//! The text of a program parses back to the program.
//!
//! [`crate::render`] writes a tree as a script, and [`crate::grammar`]
//! reads a script as a tree. This module proves that reading undoes
//! writing, for the trees that [`fits`] and its companions admit.

use vstd::prelude::*;
use crate::ast::ExpressionView;
use crate::grammar::{
    advance, concat_left, concat_right, expect, expression_at, failure, infix_precedence,
    is_expression_start, lemma_advance, literal_number, measure, operators_at, primary_at,
    regex_follows, within, Expected, PState,
};
use crate::lexer::lemma_lex_progress;
use crate::lexing::{
    gap, is_digits, is_mark, is_quotable, is_word, is_written_operator, lemma_lex_digits,
    lemma_lex_mark, lemma_lex_operator, lemma_lex_regex, lemma_lex_string, lemma_lex_word,
    lemma_occurs_char, lemma_occurs_split, lemma_operator_text, number_ends, operator_chars,
    state_of, token_start, word_ends, word_kind,
};
use crate::literals::{is_plain, law_number_reads_back, lemma_lex_number};
use crate::numeral::exact_text;
use crate::render::{is_compound, is_simple, render_expression, wrapped};
use crate::text::{in_class, occurs_at, CharClass};
use crate::token::{function_kind, keyword_kind, kind_text, TokenKind};

verus! {

/// Whether `s` can be the name of a variable: it has the shape of a word
/// and is no reserved word.
pub open spec fn is_name(s: Seq<char>) -> bool {
    is_word(s) && keyword_kind(s) is None && function_kind(s) is None
}

/// Whether the text of `e`, in parentheses if `wrap`, ends with a `length`
/// that has no argument.
pub open spec fn ends_bare(e: ExpressionView, wrap: bool) -> bool
    decreases e,
{
    if wrap {
        false
    } else {
        match e {
            ExpressionView::Length(None) => true,
            ExpressionView::Concatenation { left, right } => ends_bare(*right, is_compound(*right)),
            ExpressionView::Infix { left, operator, right } => ends_bare(
                *right,
                is_compound(*right),
            ),
            _ => false,
        }
    }
}

/// Whether the text of `e` parses back to `e`, where `regex` says whether
/// a regex literal is allowed at its start. Numbers are finite and not
/// negative, names are names, the contents of literals can stand between
/// their delimiters, a regex literal stands only where the parser allows
/// one, operators are those of the grammar, and no `length` without an
/// argument stands before an expression in parentheses, which would be
/// read as its argument.
pub open spec fn fits(e: ExpressionView, regex: bool) -> bool
    decreases e,
{
    match e {
        ExpressionView::Number(n) => is_plain(n),
        ExpressionView::String(s) => is_quotable(s, '"'),
        ExpressionView::Regex(s) => regex && is_quotable(s, '/'),
        ExpressionView::Field(inner) => fits(*inner, false),
        ExpressionView::Identifier(s) => is_name(s),
        ExpressionView::ArrayAccess { identifier, index } => is_name(identifier) && fits(
            *index,
            true,
        ),
        ExpressionView::Length(None) => true,
        ExpressionView::Length(Some(inner)) => fits(*inner, false),
        ExpressionView::Substr { string, start, length: None } => fits(*string, false) && fits(
            *start,
            false,
        ),
        ExpressionView::Substr { string, start, length: Some(length) } => fits(*string, false)
            && fits(*start, false) && fits(*length, false),
        ExpressionView::Concatenation { left, right } => fits(
            *left,
            if *left is Infix {
                false
            } else {
                regex
            },
        ) && fits(*right, false) && !(ends_bare(*left, *left is Infix) && is_compound(*right)),
        ExpressionView::Infix { left, operator, right } => is_written_operator(operator)
            && infix_precedence(operator) is Some && fits(
            *left,
            if is_compound(*left) {
                false
            } else {
                regex
            },
        ) && fits(
            *right,
            if is_compound(*right) {
                false
            } else {
                regex_follows(operator)
            },
        ),
    }
}

/// Whether a token of kind `kind` ends every expression before it.
pub open spec fn is_stop(kind: TokenKind) -> bool {
    kind == TokenKind::RightParen || kind == TokenKind::RightSquareBracket || kind
        == TokenKind::Comma || kind == TokenKind::Semicolon || kind == TokenKind::RightCurlyBrace
        || kind == TokenKind::LeftCurlyBrace || kind == TokenKind::Eof
}

/// Whether a token of kind `kind` ends an expression whose operators bind at
/// least as strongly as `min`.
pub open spec fn halts(kind: TokenKind, min: int) -> bool {
    match infix_precedence(kind) {
        Some((left, _)) => left < min,
        None => !(is_expression_start(kind) && concat_left() >= min),
    }
}

/// Whether `c` is a character that the text of a program puts behind an
/// expression.
pub open spec fn is_delimiter(c: char) -> bool {
    c == ' ' || c == ')' || c == ']' || c == ',' || c == ';'
}

/// Whether what stands in `input` at `end` ends an expression: the script
/// ends there or a delimiter stands there, and the token from there on is
/// no opening bracket.
pub open spec fn closes(input: Seq<char>, end: int) -> bool {
    &&& 0 <= end <= input.len()
    &&& (end < input.len() ==> is_delimiter(input[end]))
    &&& advance(input, end, false).current.kind != TokenKind::LeftSquareBracket
}

/// Whether what stands in `input` at `end` can follow the text of `x`: behind
/// a `length` without an argument no parenthesis opens.
pub open spec fn seals(input: Seq<char>, end: int, x: ExpressionView, wrap: bool) -> bool {
    ends_bare(x, wrap) ==> advance(input, end, false).current.kind != TokenKind::LeftParen
}

/// Whether the state `st` is that of a parser whose token ahead starts at
/// `q` and ends at or before `end`.
pub open spec fn begins(st: PState, q: int, end: int) -> bool {
    &&& st.current.kind != TokenKind::Eof
    &&& st.current.offset == q
    &&& q < st.position <= end
}

/// A parser that has read up to `end` stands in a state that is worth less
/// than any state before in which a token ahead ended at or before `end`.
pub proof fn lemma_worth_less(input: Seq<char>, st: PState, q: int, end: int, flag: bool)
    requires
        begins(st, q, end),
        0 <= q,
        end <= input.len(),
    ensures
        measure(input, advance(input, end, flag)) < measure(input, st),
{
    reveal(advance);
    lemma_lex_progress(input, end, flag);
}

/// A delimiter is no part of a word or a number.
pub proof fn lemma_delimiter_ends(input: Seq<char>, end: int)
    requires
        0 <= end <= input.len(),
        end < input.len() ==> is_delimiter(input[end]),
    ensures
        word_ends(input, end),
        number_ends(input, end),
{
}

/// The text of an expression that fits is not empty, and a token can start
/// with its first character.
pub proof fn lemma_first_char(e: ExpressionView, regex: bool, wrap: bool)
    requires
        fits(e, regex),
    ensures
        wrapped(render_expression(e), wrap).len() > 0,
        token_start(wrapped(render_expression(e), wrap)[0]),
    decreases e,
{
    if !wrap {
        match e {
            ExpressionView::Number(n) => {
                law_number_reads_back(n);
            },
            ExpressionView::String(s) => {},
            ExpressionView::Regex(s) => {},
            ExpressionView::Field(inner) => {},
            ExpressionView::Identifier(s) => {
                assert(in_class(CharClass::Word, s[0]));
            },
            ExpressionView::ArrayAccess { identifier, index } => {
                assert(in_class(CharClass::Word, identifier[0]));
            },
            ExpressionView::Length(None) => {
                reveal_strlit("length");
            },
            ExpressionView::Length(Some(inner)) => {
                reveal_strlit("length(");
            },
            ExpressionView::Substr { string, start, length } => {
                reveal_strlit("substr(");
            },
            ExpressionView::Concatenation { left, right } => {
                lemma_first_char(
                    *left,
                    if *left is Infix {
                        false
                    } else {
                        regex
                    },
                    *left is Infix,
                );
            },
            ExpressionView::Infix { left, operator, right } => {
                lemma_first_char(
                    *left,
                    if is_compound(*left) {
                        false
                    } else {
                        regex
                    },
                    is_compound(*left),
                );
            },
        }
    }
}

/// `BEGIN` is a word, and the lexer takes it for what it is.
pub proof fn lemma_word_begin()
    ensures
        is_word("BEGIN"@),
        word_kind("BEGIN"@) == TokenKind::Begin,
{
    reveal_strlit("BEGIN");
    assert forall|i: int| 0 <= i < "BEGIN"@.len() implies in_class(
        CharClass::Word,
        #[trigger] "BEGIN"@[i],
    ) by {
        if i == 0 {
        } else if i == 1 {
        } else if i == 2 {
        } else if i == 3 {
        } else if i == 4 {
        }
    }
}

/// `END` is a word, and the lexer takes it for what it is.
pub proof fn lemma_word_end()
    ensures
        is_word("END"@),
        word_kind("END"@) == TokenKind::End,
{
    reveal_strlit("END");
    reveal_strlit("BEGIN");
    lemma_differ("END"@, "BEGIN"@, 0);
    assert forall|i: int| 0 <= i < "END"@.len() implies in_class(
        CharClass::Word,
        #[trigger] "END"@[i],
    ) by {
        if i == 0 {
        } else if i == 1 {
        } else if i == 2 {
        }
    }
}

/// `exit` is a word, and the lexer takes it for what it is.
pub proof fn lemma_word_exit()
    ensures
        is_word("exit"@),
        word_kind("exit"@) == TokenKind::Exit,
{
    reveal_strlit("exit");
    reveal_strlit("BEGIN");
    lemma_differ("exit"@, "BEGIN"@, 0);
    reveal_strlit("END");
    lemma_differ("exit"@, "END"@, 0);
    reveal_strlit("break");
    lemma_differ("exit"@, "break"@, 0);
    reveal_strlit("continue");
    lemma_differ("exit"@, "continue"@, 0);
    reveal_strlit("delete");
    lemma_differ("exit"@, "delete"@, 0);
    reveal_strlit("do");
    lemma_differ("exit"@, "do"@, 0);
    reveal_strlit("else");
    lemma_differ("exit"@, "else"@, 1);
    assert forall|i: int| 0 <= i < "exit"@.len() implies in_class(
        CharClass::Word,
        #[trigger] "exit"@[i],
    ) by {
        if i == 0 {
        } else if i == 1 {
        } else if i == 2 {
        } else if i == 3 {
        }
    }
}

/// `for` is a word, and the lexer takes it for what it is.
pub proof fn lemma_word_for()
    ensures
        is_word("for"@),
        word_kind("for"@) == TokenKind::For,
{
    reveal_strlit("for");
    reveal_strlit("BEGIN");
    lemma_differ("for"@, "BEGIN"@, 0);
    reveal_strlit("END");
    lemma_differ("for"@, "END"@, 0);
    reveal_strlit("break");
    lemma_differ("for"@, "break"@, 0);
    reveal_strlit("continue");
    lemma_differ("for"@, "continue"@, 0);
    reveal_strlit("delete");
    lemma_differ("for"@, "delete"@, 0);
    reveal_strlit("do");
    lemma_differ("for"@, "do"@, 0);
    reveal_strlit("else");
    lemma_differ("for"@, "else"@, 0);
    reveal_strlit("exit");
    lemma_differ("for"@, "exit"@, 0);
    assert forall|i: int| 0 <= i < "for"@.len() implies in_class(
        CharClass::Word,
        #[trigger] "for"@[i],
    ) by {
        if i == 0 {
        } else if i == 1 {
        } else if i == 2 {
        }
    }
}

/// `if` is a word, and the lexer takes it for what it is.
pub proof fn lemma_word_if()
    ensures
        is_word("if"@),
        word_kind("if"@) == TokenKind::If,
{
    reveal_strlit("if");
    reveal_strlit("BEGIN");
    lemma_differ("if"@, "BEGIN"@, 0);
    reveal_strlit("END");
    lemma_differ("if"@, "END"@, 0);
    reveal_strlit("break");
    lemma_differ("if"@, "break"@, 0);
    reveal_strlit("continue");
    lemma_differ("if"@, "continue"@, 0);
    reveal_strlit("delete");
    lemma_differ("if"@, "delete"@, 0);
    reveal_strlit("do");
    lemma_differ("if"@, "do"@, 0);
    reveal_strlit("else");
    lemma_differ("if"@, "else"@, 0);
    reveal_strlit("exit");
    lemma_differ("if"@, "exit"@, 0);
    reveal_strlit("for");
    lemma_differ("if"@, "for"@, 0);
    reveal_strlit("function");
    lemma_differ("if"@, "function"@, 0);
    assert forall|i: int| 0 <= i < "if"@.len() implies in_class(
        CharClass::Word,
        #[trigger] "if"@[i],
    ) by {
        if i == 0 {
        } else if i == 1 {
        }
    }
}

/// `print` is a word, and the lexer takes it for what it is.
pub proof fn lemma_word_print()
    ensures
        is_word("print"@),
        word_kind("print"@) == TokenKind::Print,
{
    reveal_strlit("print");
    reveal_strlit("BEGIN");
    lemma_differ("print"@, "BEGIN"@, 0);
    reveal_strlit("END");
    lemma_differ("print"@, "END"@, 0);
    reveal_strlit("break");
    lemma_differ("print"@, "break"@, 0);
    reveal_strlit("continue");
    lemma_differ("print"@, "continue"@, 0);
    reveal_strlit("delete");
    lemma_differ("print"@, "delete"@, 0);
    reveal_strlit("do");
    lemma_differ("print"@, "do"@, 0);
    reveal_strlit("else");
    lemma_differ("print"@, "else"@, 0);
    reveal_strlit("exit");
    lemma_differ("print"@, "exit"@, 0);
    reveal_strlit("for");
    lemma_differ("print"@, "for"@, 0);
    reveal_strlit("function");
    lemma_differ("print"@, "function"@, 0);
    reveal_strlit("if");
    lemma_differ("print"@, "if"@, 0);
    reveal_strlit("in");
    lemma_differ("print"@, "in"@, 0);
    reveal_strlit("next");
    lemma_differ("print"@, "next"@, 0);
    assert forall|i: int| 0 <= i < "print"@.len() implies in_class(
        CharClass::Word,
        #[trigger] "print"@[i],
    ) by {
        if i == 0 {
        } else if i == 1 {
        } else if i == 2 {
        } else if i == 3 {
        } else if i == 4 {
        }
    }
}

/// `printf` is a word, and the lexer takes it for what it is.
pub proof fn lemma_word_printf()
    ensures
        is_word("printf"@),
        word_kind("printf"@) == TokenKind::Printf,
{
    reveal_strlit("printf");
    reveal_strlit("BEGIN");
    lemma_differ("printf"@, "BEGIN"@, 0);
    reveal_strlit("END");
    lemma_differ("printf"@, "END"@, 0);
    reveal_strlit("break");
    lemma_differ("printf"@, "break"@, 0);
    reveal_strlit("continue");
    lemma_differ("printf"@, "continue"@, 0);
    reveal_strlit("delete");
    lemma_differ("printf"@, "delete"@, 0);
    reveal_strlit("do");
    lemma_differ("printf"@, "do"@, 0);
    reveal_strlit("else");
    lemma_differ("printf"@, "else"@, 0);
    reveal_strlit("exit");
    lemma_differ("printf"@, "exit"@, 0);
    reveal_strlit("for");
    lemma_differ("printf"@, "for"@, 0);
    reveal_strlit("function");
    lemma_differ("printf"@, "function"@, 0);
    reveal_strlit("if");
    lemma_differ("printf"@, "if"@, 0);
    reveal_strlit("in");
    lemma_differ("printf"@, "in"@, 0);
    reveal_strlit("next");
    lemma_differ("printf"@, "next"@, 0);
    reveal_strlit("print");
    lemma_differ("printf"@, "print"@, 0);
    assert forall|i: int| 0 <= i < "printf"@.len() implies in_class(
        CharClass::Word,
        #[trigger] "printf"@[i],
    ) by {
        if i == 0 {
        } else if i == 1 {
        } else if i == 2 {
        } else if i == 3 {
        } else if i == 4 {
        } else if i == 5 {
        }
    }
}

/// `while` is a word, and the lexer takes it for what it is.
pub proof fn lemma_word_while()
    ensures
        is_word("while"@),
        word_kind("while"@) == TokenKind::While,
{
    reveal_strlit("while");
    reveal_strlit("BEGIN");
    lemma_differ("while"@, "BEGIN"@, 0);
    reveal_strlit("END");
    lemma_differ("while"@, "END"@, 0);
    reveal_strlit("break");
    lemma_differ("while"@, "break"@, 0);
    reveal_strlit("continue");
    lemma_differ("while"@, "continue"@, 0);
    reveal_strlit("delete");
    lemma_differ("while"@, "delete"@, 0);
    reveal_strlit("do");
    lemma_differ("while"@, "do"@, 0);
    reveal_strlit("else");
    lemma_differ("while"@, "else"@, 0);
    reveal_strlit("exit");
    lemma_differ("while"@, "exit"@, 0);
    reveal_strlit("for");
    lemma_differ("while"@, "for"@, 0);
    reveal_strlit("function");
    lemma_differ("while"@, "function"@, 0);
    reveal_strlit("if");
    lemma_differ("while"@, "if"@, 0);
    reveal_strlit("in");
    lemma_differ("while"@, "in"@, 0);
    reveal_strlit("next");
    lemma_differ("while"@, "next"@, 0);
    reveal_strlit("print");
    lemma_differ("while"@, "print"@, 0);
    reveal_strlit("printf");
    lemma_differ("while"@, "printf"@, 0);
    reveal_strlit("return");
    lemma_differ("while"@, "return"@, 0);
    assert forall|i: int| 0 <= i < "while"@.len() implies in_class(
        CharClass::Word,
        #[trigger] "while"@[i],
    ) by {
        if i == 0 {
        } else if i == 1 {
        } else if i == 2 {
        } else if i == 3 {
        } else if i == 4 {
        }
    }
}

/// `gsub` is a word, and the lexer takes it for what it is.
pub proof fn lemma_word_gsub()
    ensures
        is_word("gsub"@),
        word_kind("gsub"@) == TokenKind::Gsub,
{
    reveal_strlit("gsub");
    reveal_strlit("BEGIN");
    lemma_differ("gsub"@, "BEGIN"@, 0);
    reveal_strlit("END");
    lemma_differ("gsub"@, "END"@, 0);
    reveal_strlit("break");
    lemma_differ("gsub"@, "break"@, 0);
    reveal_strlit("continue");
    lemma_differ("gsub"@, "continue"@, 0);
    reveal_strlit("delete");
    lemma_differ("gsub"@, "delete"@, 0);
    reveal_strlit("do");
    lemma_differ("gsub"@, "do"@, 0);
    reveal_strlit("else");
    lemma_differ("gsub"@, "else"@, 0);
    reveal_strlit("exit");
    lemma_differ("gsub"@, "exit"@, 0);
    reveal_strlit("for");
    lemma_differ("gsub"@, "for"@, 0);
    reveal_strlit("function");
    lemma_differ("gsub"@, "function"@, 0);
    reveal_strlit("if");
    lemma_differ("gsub"@, "if"@, 0);
    reveal_strlit("in");
    lemma_differ("gsub"@, "in"@, 0);
    reveal_strlit("next");
    lemma_differ("gsub"@, "next"@, 0);
    reveal_strlit("print");
    lemma_differ("gsub"@, "print"@, 0);
    reveal_strlit("printf");
    lemma_differ("gsub"@, "printf"@, 0);
    reveal_strlit("return");
    lemma_differ("gsub"@, "return"@, 0);
    reveal_strlit("while");
    lemma_differ("gsub"@, "while"@, 0);
    reveal_strlit("atan2");
    lemma_differ("gsub"@, "atan2"@, 0);
    reveal_strlit("close");
    lemma_differ("gsub"@, "close"@, 0);
    reveal_strlit("cos");
    lemma_differ("gsub"@, "cos"@, 0);
    reveal_strlit("exp");
    lemma_differ("gsub"@, "exp"@, 0);
    assert forall|i: int| 0 <= i < "gsub"@.len() implies in_class(
        CharClass::Word,
        #[trigger] "gsub"@[i],
    ) by {
        if i == 0 {
        } else if i == 1 {
        } else if i == 2 {
        } else if i == 3 {
        }
    }
}

/// `length` is a word, and the lexer takes it for what it is.
pub proof fn lemma_word_length()
    ensures
        is_word("length"@),
        word_kind("length"@) == TokenKind::Length,
{
    reveal_strlit("length");
    reveal_strlit("BEGIN");
    lemma_differ("length"@, "BEGIN"@, 0);
    reveal_strlit("END");
    lemma_differ("length"@, "END"@, 0);
    reveal_strlit("break");
    lemma_differ("length"@, "break"@, 0);
    reveal_strlit("continue");
    lemma_differ("length"@, "continue"@, 0);
    reveal_strlit("delete");
    lemma_differ("length"@, "delete"@, 0);
    reveal_strlit("do");
    lemma_differ("length"@, "do"@, 0);
    reveal_strlit("else");
    lemma_differ("length"@, "else"@, 0);
    reveal_strlit("exit");
    lemma_differ("length"@, "exit"@, 0);
    reveal_strlit("for");
    lemma_differ("length"@, "for"@, 0);
    reveal_strlit("function");
    lemma_differ("length"@, "function"@, 0);
    reveal_strlit("if");
    lemma_differ("length"@, "if"@, 0);
    reveal_strlit("in");
    lemma_differ("length"@, "in"@, 0);
    reveal_strlit("next");
    lemma_differ("length"@, "next"@, 0);
    reveal_strlit("print");
    lemma_differ("length"@, "print"@, 0);
    reveal_strlit("printf");
    lemma_differ("length"@, "printf"@, 0);
    reveal_strlit("return");
    lemma_differ("length"@, "return"@, 0);
    reveal_strlit("while");
    lemma_differ("length"@, "while"@, 0);
    reveal_strlit("atan2");
    lemma_differ("length"@, "atan2"@, 0);
    reveal_strlit("close");
    lemma_differ("length"@, "close"@, 0);
    reveal_strlit("cos");
    lemma_differ("length"@, "cos"@, 0);
    reveal_strlit("exp");
    lemma_differ("length"@, "exp"@, 0);
    reveal_strlit("gsub");
    lemma_differ("length"@, "gsub"@, 0);
    reveal_strlit("index");
    lemma_differ("length"@, "index"@, 0);
    reveal_strlit("int");
    lemma_differ("length"@, "int"@, 0);
    assert forall|i: int| 0 <= i < "length"@.len() implies in_class(
        CharClass::Word,
        #[trigger] "length"@[i],
    ) by {
        if i == 0 {
        } else if i == 1 {
        } else if i == 2 {
        } else if i == 3 {
        } else if i == 4 {
        } else if i == 5 {
        }
    }
}

/// `substr` is a word, and the lexer takes it for what it is.
pub proof fn lemma_word_substr()
    ensures
        is_word("substr"@),
        word_kind("substr"@) == TokenKind::Substr,
{
    reveal_strlit("substr");
    reveal_strlit("BEGIN");
    lemma_differ("substr"@, "BEGIN"@, 0);
    reveal_strlit("END");
    lemma_differ("substr"@, "END"@, 0);
    reveal_strlit("break");
    lemma_differ("substr"@, "break"@, 0);
    reveal_strlit("continue");
    lemma_differ("substr"@, "continue"@, 0);
    reveal_strlit("delete");
    lemma_differ("substr"@, "delete"@, 0);
    reveal_strlit("do");
    lemma_differ("substr"@, "do"@, 0);
    reveal_strlit("else");
    lemma_differ("substr"@, "else"@, 0);
    reveal_strlit("exit");
    lemma_differ("substr"@, "exit"@, 0);
    reveal_strlit("for");
    lemma_differ("substr"@, "for"@, 0);
    reveal_strlit("function");
    lemma_differ("substr"@, "function"@, 0);
    reveal_strlit("if");
    lemma_differ("substr"@, "if"@, 0);
    reveal_strlit("in");
    lemma_differ("substr"@, "in"@, 0);
    reveal_strlit("next");
    lemma_differ("substr"@, "next"@, 0);
    reveal_strlit("print");
    lemma_differ("substr"@, "print"@, 0);
    reveal_strlit("printf");
    lemma_differ("substr"@, "printf"@, 0);
    reveal_strlit("return");
    lemma_differ("substr"@, "return"@, 0);
    reveal_strlit("while");
    lemma_differ("substr"@, "while"@, 0);
    reveal_strlit("atan2");
    lemma_differ("substr"@, "atan2"@, 0);
    reveal_strlit("close");
    lemma_differ("substr"@, "close"@, 0);
    reveal_strlit("cos");
    lemma_differ("substr"@, "cos"@, 0);
    reveal_strlit("exp");
    lemma_differ("substr"@, "exp"@, 0);
    reveal_strlit("gsub");
    lemma_differ("substr"@, "gsub"@, 0);
    reveal_strlit("index");
    lemma_differ("substr"@, "index"@, 0);
    reveal_strlit("int");
    lemma_differ("substr"@, "int"@, 0);
    reveal_strlit("length");
    lemma_differ("substr"@, "length"@, 0);
    reveal_strlit("log");
    lemma_differ("substr"@, "log"@, 0);
    reveal_strlit("match");
    lemma_differ("substr"@, "match"@, 0);
    reveal_strlit("rand");
    lemma_differ("substr"@, "rand"@, 0);
    reveal_strlit("sin");
    lemma_differ("substr"@, "sin"@, 0);
    reveal_strlit("split");
    lemma_differ("substr"@, "split"@, 0);
    reveal_strlit("sprintf");
    lemma_differ("substr"@, "sprintf"@, 0);
    reveal_strlit("sqrt");
    lemma_differ("substr"@, "sqrt"@, 0);
    reveal_strlit("srand");
    lemma_differ("substr"@, "srand"@, 0);
    reveal_strlit("sub");
    lemma_differ("substr"@, "sub"@, 0);
    assert forall|i: int| 0 <= i < "substr"@.len() implies in_class(
        CharClass::Word,
        #[trigger] "substr"@[i],
    ) by {
        if i == 0 {
        } else if i == 1 {
        } else if i == 2 {
        } else if i == 3 {
        } else if i == 4 {
        } else if i == 5 {
        }
    }
}

/// Two texts that differ at a place are not the same text.
pub proof fn lemma_differ(a: Seq<char>, b: Seq<char>, i: int)
    requires
        a.len() != b.len() || (0 <= i < a.len() && a[i] != b[i]),
    ensures
        a != b,
{
}

/// The kind of the token with which the text of `x` starts; in parentheses
/// if `wrap`.
pub open spec fn head_kind(x: ExpressionView, wrap: bool) -> TokenKind
    decreases x,
{
    if wrap {
        TokenKind::LeftParen
    } else {
        match x {
            ExpressionView::Number(_) => TokenKind::Number,
            ExpressionView::String(_) => TokenKind::String,
            ExpressionView::Regex(_) => TokenKind::Regex,
            ExpressionView::Field(_) => TokenKind::DollarSign,
            ExpressionView::Identifier(_) => TokenKind::Identifier,
            ExpressionView::ArrayAccess { .. } => TokenKind::Identifier,
            ExpressionView::Length(_) => TokenKind::Length,
            ExpressionView::Substr { .. } => TokenKind::Substr,
            ExpressionView::Concatenation { left, right } => head_kind(*left, *left is Infix),
            ExpressionView::Infix { left, operator, right } => head_kind(
                *left,
                is_compound(*left),
            ),
        }
    }
}

/// Whether the parser reads the primary expression `x` from the text that
/// stands from `q` up to `end`: it gives `x` and is left behind `end`, and
/// the token it starts with starts an expression.
pub open spec fn primary_reads(
    input: Seq<char>,
    pos: int,
    q: int,
    flag: bool,
    x: ExpressionView,
    end: int,
) -> bool {
    &&& primary_at(input, advance(input, pos, flag)) == Ok::<
        (ExpressionView, PState),
        crate::grammar::ParseErrorView,
    >((x, advance(input, end, false)))
    &&& begins(advance(input, pos, flag), q, end)
    &&& is_expression_start(advance(input, pos, flag).current.kind)
    &&& infix_precedence(advance(input, pos, flag).current.kind) is None
}

/// Whether the parser reads the expression `e`, with operators that bind at
/// least as strongly as `min`, from the text that stands from `q` up to
/// `end`.
pub open spec fn expression_reads(
    input: Seq<char>,
    pos: int,
    q: int,
    flag: bool,
    e: ExpressionView,
    end: int,
    min: int,
) -> bool {
    &&& expression_at(input, advance(input, pos, flag), min) == Ok::<
        (ExpressionView, PState),
        crate::grammar::ParseErrorView,
    >((e, advance(input, end, false)))
    &&& begins(advance(input, pos, flag), q, end)
    &&& is_expression_start(advance(input, pos, flag).current.kind)
    &&& infix_precedence(advance(input, pos, flag).current.kind) is None
}

/// A number that is written is read as a primary expression.
pub proof fn lemma_number_operand(input: Seq<char>, pos: int, q: int, flag: bool, n: crate::number::Number)
    requires
        gap(input, pos, q),
        is_plain(n),
        occurs_at(input, exact_text(n), q),
        closes(input, q + exact_text(n).len()),
    ensures
        primary_reads(input, pos, q, flag, ExpressionView::Number(n), q + exact_text(n).len()),
        advance(input, pos, flag).current.kind == TokenKind::Number,
{
    law_number_reads_back(n);
    lemma_delimiter_ends(input, q + exact_text(n).len());
    lemma_lex_number(input, pos, q, flag, n);
}

/// A string literal that is written is read as a primary expression.
pub proof fn lemma_string_operand(input: Seq<char>, pos: int, q: int, flag: bool, s: Seq<char>)
    requires
        gap(input, pos, q),
        is_quotable(s, '"'),
        occurs_at(input, seq!['"'] + s + seq!['"'], q),
    ensures
        primary_reads(input, pos, q, flag, ExpressionView::String(s), q + s.len() + 2),
        advance(input, pos, flag).current.kind == TokenKind::String,
{
    let t = seq!['"'] + s + seq!['"'];
    assert(t =~= seq!['"'] + s.push('"'));
    lemma_occurs_split(input, seq!['"'], s.push('"'), q);
    lemma_occurs_char(input, t, q, 0);
    lemma_lex_string(input, pos, q, flag, s);
}

/// A regex literal that is written where one is allowed is read as a
/// primary expression.
pub proof fn lemma_regex_operand(input: Seq<char>, pos: int, q: int, s: Seq<char>)
    requires
        gap(input, pos, q),
        is_quotable(s, '/'),
        occurs_at(input, seq!['/'] + s + seq!['/'], q),
    ensures
        primary_reads(input, pos, q, true, ExpressionView::Regex(s), q + s.len() + 2),
        advance(input, pos, true).current.kind == TokenKind::Regex,
{
    let t = seq!['/'] + s + seq!['/'];
    assert(t =~= seq!['/'] + s.push('/'));
    lemma_occurs_split(input, seq!['/'], s.push('/'), q);
    lemma_occurs_char(input, t, q, 0);
    lemma_lex_regex(input, pos, q, s);
}

/// A name that is written is read as a variable.
pub proof fn lemma_identifier_operand(input: Seq<char>, pos: int, q: int, flag: bool, s: Seq<char>)
    requires
        gap(input, pos, q),
        is_name(s),
        occurs_at(input, s, q),
        closes(input, q + s.len()),
    ensures
        primary_reads(input, pos, q, flag, ExpressionView::Identifier(s), q + s.len()),
        advance(input, pos, flag).current.kind == TokenKind::Identifier,
{
    lemma_delimiter_ends(input, q + s.len());
    lemma_lex_word(input, pos, q, flag, s);
}

/// A `length` without an argument that is written, with no parenthesis
/// behind it, is read as a primary expression.
pub proof fn lemma_bare_length(input: Seq<char>, pos: int, q: int, flag: bool)
    requires
        gap(input, pos, q),
        occurs_at(input, "length"@, q),
        closes(input, q + 6),
        advance(input, q + 6, false).current.kind != TokenKind::LeftParen,
    ensures
        primary_reads(input, pos, q, flag, ExpressionView::Length(None), q + 6),
        advance(input, pos, flag).current.kind == TokenKind::Length,
{
    reveal_strlit("length");
    lemma_word_length();
    lemma_delimiter_ends(input, q + 6);
    lemma_lex_word(input, pos, q, flag, "length"@);
}

/// Behind a state that begins before `end`, the state after `end` is worth
/// less: the parser has gone forward.
pub proof fn lemma_forward(input: Seq<char>, pos: int, flag: bool, q: int, mid: int, end: int)
    requires
        begins(advance(input, pos, flag), q, mid),
        0 <= q,
        mid <= end <= input.len(),
    ensures
        measure(input, advance(input, end, false)) < measure(input, advance(input, pos, flag)),
        measure(input, advance(input, end, true)) < measure(input, advance(input, pos, flag)),
{
    lemma_worth_less(input, advance(input, pos, flag), q, end, false);
    lemma_worth_less(input, advance(input, pos, flag), q, end, true);
}

/// A token that ends every expression ends one at every binding power.
pub proof fn lemma_stop_halts(kind: TokenKind, min: int)
    requires
        is_stop(kind),
    ensures
        halts(kind, min),
        kind != TokenKind::LeftSquareBracket,
{
}

/// After a primary expression that is followed by a token that ends it, the
/// parser has read an expression.
pub proof fn lemma_primary_alone(
    input: Seq<char>,
    pos: int,
    q: int,
    flag: bool,
    x: ExpressionView,
    end: int,
    min: int,
)
    requires
        primary_reads(input, pos, q, flag, x, end),
        0 <= q,
        end <= input.len(),
        halts(advance(input, end, false).current.kind, min),
    ensures
        expression_reads(input, pos, q, flag, x, end, min),
{
    lemma_forward(input, pos, flag, q, end, end);
    let st0 = advance(input, pos, flag);
    let st1 = advance(input, end, false);
    assert(operators_at(input, st1, x, min) == Ok::<
        (ExpressionView, PState),
        crate::grammar::ParseErrorView,
    >((x, st1)));
}

/// Where a mark stands behind an expression, the token behind the
/// expression is the mark.
pub proof fn lemma_mark_follows(input: Seq<char>, end: int, kind: TokenKind)
    requires
        0 <= end < input.len(),
        is_mark(kind, input[end]),
    ensures
        advance(input, end, false) == state_of(kind, kind_text(kind), end, end + 1),
        advance(input, end, true) == state_of(kind, kind_text(kind), end, end + 1),
{
    lemma_lex_mark(input, end, end, false, kind);
    lemma_lex_mark(input, end, end, true, kind);
}

/// An operand that is written is read as a primary expression. The operand
/// is written in parentheses if `wrap`; else it is no expression made with
/// an operator.
#[verifier::rlimit(50)]
pub proof fn lemma_operand(
    input: Seq<char>,
    pos: int,
    q: int,
    flag: bool,
    x: ExpressionView,
    wrap: bool,
)
    requires
        gap(input, pos, q),
        occurs_at(input, wrapped(render_expression(x), wrap), q),
        wrap ==> fits(x, false),
        !wrap ==> fits(x, flag) && !is_compound(x),
        closes(input, q + wrapped(render_expression(x), wrap).len()),
        seals(input, q + wrapped(render_expression(x), wrap).len(), x, wrap),
    ensures
        primary_reads(input, pos, q, flag, x, q + wrapped(render_expression(x), wrap).len()),
        advance(input, pos, flag).current.kind == head_kind(x, wrap),
    decreases x, (if wrap {
        5int
    } else {
        1int
    }),
{
    if wrap {
        lemma_wrapped(input, pos, q, flag, x);
    } else {
        match x {
            ExpressionView::Number(n) => {
                lemma_number_operand(input, pos, q, flag, n);
            },
            ExpressionView::String(s) => {
                lemma_string_operand(input, pos, q, flag, s);
            },
            ExpressionView::Regex(s) => {
                lemma_regex_operand(input, pos, q, s);
            },
            ExpressionView::Identifier(s) => {
                lemma_identifier_operand(input, pos, q, flag, s);
            },
            ExpressionView::Field(inner) => {
                lemma_field(input, pos, q, flag, x);
            },
            ExpressionView::ArrayAccess { identifier, index } => {
                lemma_array_access(input, pos, q, flag, x);
            },
            ExpressionView::Length(None) => {
                reveal_strlit("length");
                lemma_bare_length(input, pos, q, flag);
            },
            ExpressionView::Length(Some(inner)) => {
                lemma_length(input, pos, q, flag, x);
            },
            ExpressionView::Substr { string, start, length } => {
                lemma_substr(input, pos, q, flag, x);
            },
            ExpressionView::Concatenation { left, right } => {},
            ExpressionView::Infix { left, operator, right } => {},
        }
    }
}

/// An expression that is written in parentheses is read as a primary
/// expression.
#[verifier::rlimit(50)]
pub proof fn lemma_wrapped(input: Seq<char>, pos: int, q: int, flag: bool, x: ExpressionView)
    requires
        gap(input, pos, q),
        occurs_at(input, wrapped(render_expression(x), true), q),
        fits(x, false),
        closes(input, q + wrapped(render_expression(x), true).len()),
    ensures
        primary_reads(input, pos, q, flag, x, q + wrapped(render_expression(x), true).len()),
        advance(input, pos, flag).current.kind == TokenKind::LeftParen,
    decreases x, 4int,
{
    let text = wrapped(render_expression(x), true);
    let end = q + text.len();
    let inner = render_expression(x);
    lemma_first_char(x, false, false);
    lemma_occurs_split(input, seq!['('] + inner, seq![')'], q);
    lemma_occurs_split(input, seq!['('], inner, q);
    lemma_occurs_char(input, text, q, 0);
    lemma_occurs_char(input, inner, q + 1, 0);
    lemma_occurs_char(input, seq![')'], q + 1 + inner.len(), 0);
    lemma_lex_mark(input, pos, q, flag, TokenKind::LeftParen);
    lemma_mark_follows(input, q + 1 + inner.len(), TokenKind::RightParen);
    lemma_expr(input, q + 1, q + 1, false, x);
    let st1 = advance(input, q + 1 + inner.len(), false);
    assert(expect(input, st1, TokenKind::RightParen, Expected::RightParen, false) == Ok::<
        PState,
        crate::grammar::ParseErrorView,
    >(advance(input, end, false)));
}

/// A field that is written is read as a primary expression.
#[verifier::rlimit(50)]
pub proof fn lemma_field(input: Seq<char>, pos: int, q: int, flag: bool, x: ExpressionView)
    requires
        x is Field,
        gap(input, pos, q),
        occurs_at(input, render_expression(x), q),
        fits(x, flag),
        closes(input, q + render_expression(x).len()),
    ensures
        primary_reads(input, pos, q, flag, x, q + render_expression(x).len()),
        advance(input, pos, flag).current.kind == head_kind(x, false),
    decreases x, 0int,
{
    let text = render_expression(x);
    let end = q + text.len();
    match x {
        ExpressionView::Field(inner) => {
                let rest = wrapped(render_expression(*inner), !is_simple(*inner));
                lemma_first_char(*inner, false, !is_simple(*inner));
                lemma_occurs_split(input, seq!['$'], rest, q);
                lemma_occurs_char(input, text, q, 0);
                lemma_occurs_char(input, rest, q + 1, 0);
                lemma_lex_mark(input, pos, q, flag, TokenKind::DollarSign);
                lemma_operand(input, q + 1, q + 1, false, *inner, !is_simple(*inner));
        },
        _ => {},
    }
}

/// An array element that is written is read as a primary expression.
#[verifier::rlimit(50)]
pub proof fn lemma_array_access(input: Seq<char>, pos: int, q: int, flag: bool, x: ExpressionView)
    requires
        x is ArrayAccess,
        gap(input, pos, q),
        occurs_at(input, render_expression(x), q),
        fits(x, flag),
        closes(input, q + render_expression(x).len()),
    ensures
        primary_reads(input, pos, q, flag, x, q + render_expression(x).len()),
        advance(input, pos, flag).current.kind == head_kind(x, false),
    decreases x, 0int,
{
    let text = render_expression(x);
    let end = q + text.len();
    match x {
        ExpressionView::ArrayAccess { identifier, index } => {
                let inner = render_expression(*index);
                lemma_first_char(*index, true, false);
                lemma_occurs_split(input, identifier + seq!['['] + inner, seq![']'], q);
                lemma_occurs_split(input, identifier + seq!['['], inner, q);
                lemma_occurs_split(input, identifier, seq!['['], q);
                let open = q + identifier.len();
                lemma_occurs_char(input, seq!['['], open, 0);
                lemma_occurs_char(input, inner, open + 1, 0);
                lemma_occurs_char(input, seq![']'], open + 1 + inner.len(), 0);
                lemma_lex_word(input, pos, q, flag, identifier);
                lemma_mark_follows(input, open, TokenKind::LeftSquareBracket);
                lemma_mark_follows(input, open + 1 + inner.len(), TokenKind::RightSquareBracket);
                lemma_expr(input, open + 1, open + 1, true, *index);
                let st2 = advance(input, open + 1 + inner.len(), false);
                assert(expect(
                    input,
                    st2,
                    TokenKind::RightSquareBracket,
                    Expected::RightBracket,
                    false,
                ) == Ok::<PState, crate::grammar::ParseErrorView>(advance(input, end, false)));
        },
        _ => {},
    }
}

/// A call of `length` that is written is read as a primary expression.
#[verifier::rlimit(50)]
pub proof fn lemma_length(input: Seq<char>, pos: int, q: int, flag: bool, x: ExpressionView)
    requires
        x is Length,
        x != ExpressionView::Length(None),
        gap(input, pos, q),
        occurs_at(input, render_expression(x), q),
        fits(x, flag),
        closes(input, q + render_expression(x).len()),
    ensures
        primary_reads(input, pos, q, flag, x, q + render_expression(x).len()),
        advance(input, pos, flag).current.kind == head_kind(x, false),
    decreases x, 0int,
{
    let text = render_expression(x);
    let end = q + text.len();
    match x {
        ExpressionView::Length(Some(inner)) => {
                let body = render_expression(*inner);
                reveal_strlit("length(");
                reveal_strlit("length");
                lemma_word_length();
                assert("length("@ =~= "length"@ + seq!['(']);
                lemma_first_char(*inner, false, false);
                lemma_occurs_split(input, "length("@ + body, seq![')'], q);
                lemma_occurs_split(input, "length("@, body, q);
                lemma_occurs_split(input, "length"@, seq!['('], q);
                lemma_occurs_char(input, seq!['('], q + 6, 0);
                lemma_occurs_char(input, body, q + 7, 0);
                lemma_occurs_char(input, seq![')'], q + 7 + body.len(), 0);
                lemma_lex_word(input, pos, q, flag, "length"@);
                lemma_mark_follows(input, q + 6, TokenKind::LeftParen);
                lemma_mark_follows(input, q + 7 + body.len(), TokenKind::RightParen);
                lemma_expr(input, q + 7, q + 7, false, *inner);
                let st2 = advance(input, q + 7 + body.len(), false);
                assert(expect(input, st2, TokenKind::RightParen, Expected::RightParen, false)
                    == Ok::<PState, crate::grammar::ParseErrorView>(advance(input, end, false)));
        },
        _ => {},
    }
}

/// A call of `substr` that is written is read as a primary expression.
#[verifier::rlimit(50)]
pub proof fn lemma_substr(input: Seq<char>, pos: int, q: int, flag: bool, x: ExpressionView)
    requires
        x is Substr,
        gap(input, pos, q),
        occurs_at(input, render_expression(x), q),
        fits(x, flag),
        closes(input, q + render_expression(x).len()),
    ensures
        primary_reads(input, pos, q, flag, x, q + render_expression(x).len()),
        advance(input, pos, flag).current.kind == head_kind(x, false),
    decreases x, 0int,
{
    let text = render_expression(x);
    let end = q + text.len();
    reveal_strlit("substr(");
    reveal_strlit("substr");
    reveal_strlit(", ");
    lemma_word_substr();
    assert("substr("@ =~= "substr"@ + seq!['(']);
    assert(", "@ =~= seq![','] + seq![' ']);
    match x {
        ExpressionView::Substr { string, start, length } => {
            let a = render_expression(*string);
            let b = render_expression(*start);
            lemma_first_char(*string, false, false);
            lemma_first_char(*start, false, false);
            // Where the parts stand.
            let a_at = q + 7;
            let comma1 = a_at + a.len();
            let b_at = comma1 + 2;
            let b_end = b_at + b.len();
            match length {
                None => {
                    lemma_occurs_split(input, "substr("@ + a + ", "@ + b, seq![')'], q);
                },
                Some(l) => {
                    let c = render_expression(*l);
                    lemma_occurs_split(input, "substr("@ + a + ", "@ + b + ", "@ + c, seq![')'], q);
                    lemma_occurs_split(input, "substr("@ + a + ", "@ + b + ", "@, c, q);
                    lemma_occurs_split(input, "substr("@ + a + ", "@ + b, ", "@, q);
                },
            }
            lemma_occurs_split(input, "substr("@ + a + ", "@, b, q);
            lemma_occurs_split(input, "substr("@ + a, ", "@, q);
            lemma_occurs_split(input, "substr("@, a, q);
            lemma_occurs_split(input, "substr"@, seq!['('], q);
            lemma_occurs_char(input, seq!['('], q + 6, 0);
            lemma_occurs_char(input, a, a_at, 0);
            lemma_occurs_char(input, ", "@, comma1, 0);
            lemma_occurs_char(input, ", "@, comma1, 1);
            lemma_occurs_char(input, b, b_at, 0);
            lemma_lex_word(input, pos, q, flag, "substr"@);
            lemma_mark_follows(input, q + 6, TokenKind::LeftParen);
            lemma_mark_follows(input, comma1, TokenKind::Comma);
            lemma_expr(input, a_at, a_at, false, *string);
            let st0 = advance(input, pos, flag);
            let next = advance(input, q + 6, false);
            let st1 = advance(input, a_at, false);
            let st2 = advance(input, comma1, false);
            let st3 = advance(input, comma1 + 1, false);
            lemma_forward(input, a_at, false, a_at, comma1, comma1);
            assert(expect(input, next, TokenKind::LeftParen, Expected::LeftParen, false) == Ok::<
                PState,
                crate::grammar::ParseErrorView,
            >(st1));
            assert(within(input, expression_at(input, st1, 0), st1) == Ok::<
                (ExpressionView, PState),
                crate::grammar::ParseErrorView,
            >((*string, st2)));
            assert(expect(input, st2, TokenKind::Comma, Expected::Comma, false) == Ok::<
                PState,
                crate::grammar::ParseErrorView,
            >(st3));
            match length {
                None => {
                    lemma_occurs_char(input, seq![')'], b_end, 0);
                    lemma_mark_follows(input, b_end, TokenKind::RightParen);
                    lemma_expr(input, comma1 + 1, b_at, false, *start);
                    let st4 = advance(input, b_end, false);
                    lemma_forward(input, comma1 + 1, false, b_at, b_end, b_end);
                    assert(within(input, expression_at(input, st3, 0), st3) == Ok::<
                        (ExpressionView, PState),
                        crate::grammar::ParseErrorView,
                    >((*start, st4)));
                    assert(expect(input, st4, TokenKind::RightParen, Expected::RightParen, false)
                        == Ok::<PState, crate::grammar::ParseErrorView>(
                        advance(input, end, false),
                    ));
                },
                Some(l) => {
                    let c = render_expression(*l);
                    lemma_first_char(*l, false, false);
                    let c_at = b_end + 2;
                    let c_end = c_at + c.len();
                    lemma_occurs_char(input, ", "@, b_end, 0);
                    lemma_occurs_char(input, ", "@, b_end, 1);
                    lemma_occurs_char(input, c, c_at, 0);
                    lemma_occurs_char(input, seq![')'], c_end, 0);
                    lemma_mark_follows(input, b_end, TokenKind::Comma);
                    lemma_mark_follows(input, c_end, TokenKind::RightParen);
                    lemma_expr(input, comma1 + 1, b_at, false, *start);
                    lemma_expr(input, b_end + 1, c_at, false, *l);
                    let st4 = advance(input, b_end, false);
                    let st5 = advance(input, b_end + 1, false);
                    let st6 = advance(input, c_end, false);
                    lemma_forward(input, comma1 + 1, false, b_at, b_end, b_end);
                    assert(within(input, expression_at(input, st3, 0), st3) == Ok::<
                        (ExpressionView, PState),
                        crate::grammar::ParseErrorView,
                    >((*start, st4)));
                    assert(expect(input, st6, TokenKind::RightParen, Expected::RightParen, false)
                        == Ok::<PState, crate::grammar::ParseErrorView>(
                        advance(input, end, false),
                    ));
                },
            }
        },
        _ => {},
    }
}

/// An expression that is written, and followed by a token that ends every
/// expression, is read as the expression.
#[verifier::rlimit(50)]
pub proof fn lemma_expr(input: Seq<char>, pos: int, q: int, flag: bool, e: ExpressionView)
    requires
        gap(input, pos, q),
        occurs_at(input, render_expression(e), q),
        fits(e, flag),
        closes(input, q + render_expression(e).len()),
        is_stop(advance(input, q + render_expression(e).len(), false).current.kind),
    ensures
        expression_reads(input, pos, q, flag, e, q + render_expression(e).len(), 0),
        advance(input, pos, flag).current.kind == head_kind(e, false),
    decreases e, 3int,
{
    let text = render_expression(e);
    let end = q + text.len();
    let st0 = advance(input, pos, flag);
    let st9 = advance(input, end, false);
    lemma_stop_halts(st9.current.kind, 0);
    match e {
        ExpressionView::Concatenation { left, right } => {
            lemma_stop_halts(st9.current.kind, concat_right());
            lemma_chain(input, pos, q, flag, e);
            assert(operators_at(input, st9, e, 0) == Ok::<
                (ExpressionView, PState),
                crate::grammar::ParseErrorView,
            >((e, st9)));
        },
        ExpressionView::Infix { left, operator, right } => {
            let wl = wrapped(render_expression(*left), is_compound(*left));
            let wr = wrapped(render_expression(*right), is_compound(*right));
            let op = kind_text(operator);
            lemma_operator_text(operator);
            lemma_first_char(*right, if is_compound(*right) {
                false
            } else {
                regex_follows(operator)
            }, is_compound(*right));
            let a = q + wl.len();
            let b = a + 1;
            let c = b + op.len();
            let d = c + 1;
            lemma_occurs_split(input, wl + seq![' '] + op + seq![' '], wr, q);
            lemma_occurs_split(input, wl + seq![' '] + op, seq![' '], q);
            lemma_occurs_split(input, wl + seq![' '], op, q);
            lemma_occurs_split(input, wl, seq![' '], q);
            lemma_occurs_char(input, seq![' '], a, 0);
            lemma_occurs_char(input, op, b, 0);
            lemma_occurs_char(input, seq![' '], c, 0);
            lemma_occurs_char(input, wr, d, 0);
            lemma_lex_operator(input, a, b, false, operator);
            let st1 = advance(input, a, false);
            lemma_operand(input, pos, q, flag, *left, is_compound(*left));
            lemma_operand(input, c, d, regex_follows(operator), *right, is_compound(*right));
            let next = advance(input, c, regex_follows(operator));
            let (lp, rp) = infix_precedence(operator)->Some_0;
            lemma_stop_halts(st9.current.kind, rp);
            lemma_primary_alone(input, c, d, regex_follows(operator), *right, end, rp);
            lemma_forward(input, pos, flag, q, a, a);
            lemma_forward(input, a, false, b, c, end);
            assert(st1.position == c);
            assert(st1.current.kind == operator);
            assert(operators_at(input, st9, e, 0) == Ok::<
                (ExpressionView, PState),
                crate::grammar::ParseErrorView,
            >((e, st9)));
            assert(operators_at(input, st1, *left, 0) == operators_at(input, st9, e, 0));
        },
        _ => {
            lemma_operand(input, pos, q, flag, e, false);
            lemma_primary_alone(input, pos, q, flag, e, end, 0);
        },
    }
}

/// Expressions that are written side by side are read as their
/// concatenation, up to the token behind them.
#[verifier::rlimit(50)]
pub proof fn lemma_chain(input: Seq<char>, pos: int, q: int, flag: bool, e: ExpressionView)
    requires
        e is Concatenation,
        gap(input, pos, q),
        occurs_at(input, render_expression(e), q),
        fits(e, flag),
        closes(input, q + render_expression(e).len()),
        seals(input, q + render_expression(e).len(), e, false),
        halts(advance(input, q + render_expression(e).len(), false).current.kind, concat_right()),
    ensures
        expression_at(input, advance(input, pos, flag), 0) == operators_at(
            input,
            advance(input, q + render_expression(e).len(), false),
            e,
            0,
        ),
        begins(advance(input, pos, flag), q, q + render_expression(e).len()),
        is_expression_start(advance(input, pos, flag).current.kind),
        infix_precedence(advance(input, pos, flag).current.kind) is None,
        advance(input, pos, flag).current.kind == head_kind(e, false),
    decreases e, 2int,
{
    match e {
        ExpressionView::Concatenation { left, right } => {
            let wl = wrapped(render_expression(*left), *left is Infix);
            let wr = wrapped(render_expression(*right), is_compound(*right));
            let end = q + render_expression(e).len();
            let mid = q + wl.len();
            lemma_first_char(*right, false, is_compound(*right));
            lemma_occurs_split(input, wl + seq![' '], wr, q);
            lemma_occurs_split(input, wl, seq![' '], q);
            lemma_occurs_char(input, seq![' '], mid, 0);
            lemma_occurs_char(input, wr, mid + 1, 0);
            lemma_operand(input, mid, mid + 1, false, *right, is_compound(*right));
            let st0 = advance(input, pos, flag);
            let st1 = advance(input, mid, false);
            let st2 = advance(input, end, false);
            lemma_forward(input, mid, false, mid + 1, end, end);
            assert(operators_at(input, st2, *right, concat_right()) == Ok::<
                (ExpressionView, PState),
                crate::grammar::ParseErrorView,
            >((*right, st2)));
            assert(expression_at(input, st1, concat_right()) == Ok::<
                (ExpressionView, PState),
                crate::grammar::ParseErrorView,
            >((*right, st2)));
            assert(operators_at(input, st1, *left, 0) == operators_at(input, st2, e, 0));
            if *left is Concatenation {
                lemma_chain(input, pos, q, flag, *left);
            } else {
                lemma_operand(input, pos, q, flag, *left, *left is Infix);
                lemma_forward(input, pos, flag, q, mid, mid);
            }
        },
        _ => {},
    }
}

/// An expression that is written parses back to itself: where the text of
/// an expression that fits stands in a script, behind a gap and before a
/// token that ends every expression, the grammar reads the expression and
/// leaves the parser behind the text.
pub proof fn law_expression_parses_back(
    input: Seq<char>,
    pos: int,
    q: int,
    flag: bool,
    e: ExpressionView,
)
    requires
        gap(input, pos, q),
        occurs_at(input, render_expression(e), q),
        fits(e, flag),
        closes(input, q + render_expression(e).len()),
        is_stop(advance(input, q + render_expression(e).len(), false).current.kind),
    ensures
        expression_at(input, advance(input, pos, flag), 0) == Ok::<
            (ExpressionView, PState),
            crate::grammar::ParseErrorView,
        >((e, advance(input, q + render_expression(e).len(), false))),
{
    lemma_expr(input, pos, q, flag, e);
}

} // verus!
