//! The text of a statement parses back to the statement.

use vstd::prelude::*;
use crate::ast::{ExpressionView, StatementView};
use crate::grammar::{
    advance, arguments_at, assignment_at, block_at, body_at, compound_operator, condition_at,
    expect, expression_at, field_assignment_at, for_at, gsub_at, if_at, is_expression_start,
    lemma_skip_separators, measure, separator, skip_separators, statement_at, statements_at,
    while_at, within, Expected, PState, ParseErrorView,
};
use crate::lexing::{
    gap, is_mark, lemma_lex_mark, lemma_lex_operator, lemma_lex_word, lemma_occurs_char,
    lemma_occurs_split, lemma_operator_text, operator_chars, state_of, token_start, word_kind,
};
use crate::render::{
    block_text, is_comma_at, is_simple, print_items_text, print_piece, printf_items_text, printf_piece,
    render_expression, render_statement, statements_text, wrapped,
};
use crate::roundtrip::{
    begins, closes, expression_reads, fits, is_delimiter, is_name, is_stop, lemma_expr,
    lemma_first_char, lemma_forward, lemma_mark_follows, lemma_operand, lemma_stop_halts,
    lemma_word_exit, lemma_word_for, lemma_word_gsub, lemma_word_if, lemma_word_print,
    lemma_word_printf, lemma_word_while, primary_reads,
};
use crate::text::{in_class, occurs_at, CharClass};
use crate::token::{kind_text, TokenKind};

verus! {

/// Whether the arguments of a `print` are as the parser leaves them: an
/// expression, or expressions with the expression that stands for a comma
/// between each two. The first and the last may themselves be a single
/// space; one between two commas would be written as a comma.
pub open spec fn fits_print(items: Seq<ExpressionView>) -> bool {
    items.len() == 0 || (items.len() % 2 == 1 && forall|i: int|
        0 <= i < items.len() ==> if i % 2 == 0 {
            fits(#[trigger] items[i], false) && !is_comma_at(items, i)
        } else {
            items[i] == separator()
        })
}

/// Whether the text of `s` parses back to `s`. A statement in the head of a
/// `for` loop (`header`) is no `print` and no `printf`.
pub open spec fn fits_statement(s: StatementView, header: bool) -> bool
    decreases s, 0int,
{
    match s {
        StatementView::Print(items) => !header && fits_print(items),
        StatementView::Printf(items) => !header && forall|i: int|
            0 <= i < items.len() ==> fits(#[trigger] items[i], false),
        StatementView::Gsub { pattern, replacement } => fits(pattern, true) && fits(
            replacement,
            false,
        ),
        StatementView::Assignment { identifier, value } => is_name(identifier) && fits(
            value,
            false,
        ),
        StatementView::FieldAssignment { field, value } => fits(field, false) && fits(value, false),
        StatementView::AddAssignment { identifier, value } => is_name(identifier) && fits(
            value,
            false,
        ),
        StatementView::PreIncrement { identifier } => is_name(identifier),
        StatementView::PostIncrement { identifier } => is_name(identifier),
        StatementView::If { condition, then_statements } => fits(condition, true) && fits_block(
            then_statements,
        ),
        StatementView::While { condition, statements } => fits(condition, true) && fits_block(
            statements,
        ),
        StatementView::For { init, condition, update, statements } => fits_statement(*init, true)
            && fits(condition, true) && fits_statement(*update, true) && fits_block(statements),
        StatementView::Exit => true,
        StatementView::ArrayAssignment { identifier, index, value } => is_name(identifier) && fits(
            index,
            true,
        ) && fits(value, false),
        StatementView::ArrayAddAssignment { identifier, index, value } => is_name(identifier)
            && fits(index, true) && fits(value, false),
    }
}

/// Whether the text of each of the statements `ss` parses back.
pub open spec fn fits_block(ss: Seq<StatementView>) -> bool
    decreases ss, 1int,
{
    if ss.len() == 0 {
        true
    } else {
        fits_block(ss.drop_last()) && fits_statement(ss.last(), false)
    }
}

/// Whether a statement can start with a token of kind `kind`.
pub open spec fn is_statement_start(kind: TokenKind) -> bool {
    kind == TokenKind::Print || kind == TokenKind::Printf || kind == TokenKind::Gsub || kind
        == TokenKind::If || kind == TokenKind::While || kind == TokenKind::For || kind
        == TokenKind::Exit || kind == TokenKind::Identifier || kind == TokenKind::DollarSign
        || kind == TokenKind::Increment
}

/// Whether the parser reads the statement `s` from the text that stands
/// from `q` up to `end`.
pub open spec fn statement_reads(input: Seq<char>, pos: int, q: int, s: StatementView, end: int)
    -> bool {
    &&& statement_at(input, advance(input, pos, false)) == Ok::<
        (StatementView, PState),
        ParseErrorView,
    >((s, advance(input, end, false)))
    &&& begins(advance(input, pos, false), q, end)
    &&& is_statement_start(advance(input, pos, false).current.kind)
}

/// Whether a token of kind `kind` follows a statement in a block.
pub open spec fn ends_statement(kind: TokenKind) -> bool {
    kind == TokenKind::Semicolon || kind == TokenKind::RightCurlyBrace
}

/// `exit` that is written is read as `exit`.
pub proof fn lemma_exit(input: Seq<char>, pos: int, q: int)
    requires
        gap(input, pos, q),
        occurs_at(input, render_statement(StatementView::Exit), q),
        closes(input, q + render_statement(StatementView::Exit).len()),
    ensures
        statement_reads(
            input,
            pos,
            q,
            StatementView::Exit,
            q + render_statement(StatementView::Exit).len(),
        ),
{
    lemma_word_exit();
    reveal_strlit("exit");
    crate::roundtrip::lemma_delimiter_ends(input, q + 4);
    lemma_lex_word(input, pos, q, false, "exit"@);
}

/// `++name` that is written is read as it is.
pub proof fn lemma_pre_increment(input: Seq<char>, pos: int, q: int, s: StatementView)
    requires
        s is PreIncrement,
        gap(input, pos, q),
        occurs_at(input, render_statement(s), q),
        fits_statement(s, false),
        closes(input, q + render_statement(s).len()),
    ensures
        statement_reads(input, pos, q, s, q + render_statement(s).len()),
{
    let name = s->PreIncrement_identifier;
    reveal_strlit("++");
    lemma_operator_text(TokenKind::Increment);
    assert("++"@ =~= operator_chars(TokenKind::Increment));
    lemma_occurs_split(input, "++"@, name, q);
    lemma_occurs_char(input, "++"@, q, 0);
    lemma_occurs_char(input, name, q + 2, 0);
    assert(in_class(CharClass::Word, name[0]));
    lemma_lex_operator(input, pos, q, false, TokenKind::Increment);
    crate::roundtrip::lemma_delimiter_ends(input, q + 2 + name.len());
    lemma_lex_word(input, q + 2, q + 2, false, name);
}

/// Where an assignment operator with a space before and behind it stands,
/// its parts stand.
pub proof fn lemma_spaced_operator(input: Seq<char>, at: int, lit: Seq<char>, operator: TokenKind)
    requires
        operator == TokenKind::Assign || operator == TokenKind::AddAssign,
        lit == seq![' '] + operator_chars(operator) + seq![' '],
        occurs_at(input, lit, at),
    ensures
        lit.len() == operator_chars(operator).len() + 2,
        at + lit.len() <= input.len(),
        input[at] == ' ',
        occurs_at(input, operator_chars(operator), at + 1),
        input[at + 1 + operator_chars(operator).len()] == ' ',
{
    let op = operator_chars(operator);
    lemma_occurs_split(input, seq![' '] + op, seq![' '], at);
    lemma_occurs_split(input, seq![' '], op, at);
    lemma_occurs_char(input, seq![' '], at, 0);
    lemma_occurs_char(input, seq![' '], at + 1 + op.len(), 0);
}

/// What the parser reads where a name, an assignment operator and an
/// expression stand.
#[verifier::rlimit(50)]
pub proof fn lemma_assignment_parts(
    input: Seq<char>,
    pos: int,
    q: int,
    name: Seq<char>,
    operator: TokenKind,
    value: ExpressionView,
)
    requires
        gap(input, pos, q),
        is_name(name),
        fits(value, false),
        operator == TokenKind::Assign || operator == TokenKind::AddAssign,
        occurs_at(input, name, q),
        q + name.len() + 1 + operator_chars(operator).len() < input.len(),
        input[q + name.len()] == ' ',
        occurs_at(input, operator_chars(operator), q + name.len() + 1),
        input[q + name.len() + 1 + operator_chars(operator).len()] == ' ',
        occurs_at(
            input,
            render_expression(value),
            q + name.len() + 2 + operator_chars(operator).len(),
        ),
        closes(
            input,
            q + name.len() + 2 + operator_chars(operator).len() + render_expression(value).len(),
        ),
        is_stop(
            advance(
                input,
                q + name.len() + 2 + operator_chars(operator).len() + render_expression(
                    value,
                ).len(),
                false,
            ).current.kind,
        ),
    ensures
        advance(input, pos, false) == state_of(TokenKind::Identifier, name, q, q + name.len()),
        assignment_at(input, advance(input, q + name.len(), false), name) == Ok::<
            (StatementView, PState),
            ParseErrorView,
        >(
            (
                if operator == TokenKind::Assign {
                    StatementView::Assignment { identifier: name, value }
                } else {
                    StatementView::AddAssignment { identifier: name, value }
                },
                advance(
                    input,
                    q + name.len() + 2 + operator_chars(operator).len() + render_expression(
                        value,
                    ).len(),
                    false,
                ),
            ),
        ),
{
    let op = operator_chars(operator);
    let text = render_expression(value);
    let a = q + name.len();
    lemma_first_char(value, false, false);
    lemma_occurs_char(input, op, a + 1, 0);
    lemma_occurs_char(input, text, a + 2 + op.len(), 0);
    lemma_occurs_char(input, name, q, 0);
    assert(in_class(CharClass::Word, name[0]));
    lemma_lex_word(input, pos, q, false, name);
    lemma_lex_operator(input, a, a + 1, false, operator);
    lemma_expr(input, a + 1 + op.len(), a + 2 + op.len(), false, value);
    let next = advance(input, a, false);
    assert(next.current.kind == operator);
    assert(next.position == a + 1 + op.len());
}

/// `name = value` that is written is read as it is.
pub proof fn lemma_assignment(input: Seq<char>, pos: int, q: int, s: StatementView)
    requires
        s is Assignment,
        gap(input, pos, q),
        occurs_at(input, render_statement(s), q),
        fits_statement(s, false),
        closes(input, q + render_statement(s).len()),
        is_stop(advance(input, q + render_statement(s).len(), false).current.kind),
    ensures
        statement_reads(input, pos, q, s, q + render_statement(s).len()),
{
    match s {
        StatementView::Assignment { identifier, value } => {
            let text = render_expression(value);
            reveal_strlit(" = ");
            assert(" = "@ =~= seq![' '] + operator_chars(TokenKind::Assign) + seq![' ']);
            lemma_occurs_split(input, identifier + " = "@, text, q);
            lemma_occurs_split(input, identifier, " = "@, q);
            lemma_spaced_operator(input, q + identifier.len(), " = "@, TokenKind::Assign);
            lemma_assignment_parts(input, pos, q, identifier, TokenKind::Assign, value);
        },
        _ => {},
    }
}

/// `name += value` that is written is read as it is.
pub proof fn lemma_add_assignment(input: Seq<char>, pos: int, q: int, s: StatementView)
    requires
        s is AddAssignment,
        gap(input, pos, q),
        occurs_at(input, render_statement(s), q),
        fits_statement(s, false),
        closes(input, q + render_statement(s).len()),
        is_stop(advance(input, q + render_statement(s).len(), false).current.kind),
    ensures
        statement_reads(input, pos, q, s, q + render_statement(s).len()),
{
    match s {
        StatementView::AddAssignment { identifier, value } => {
            let text = render_expression(value);
            reveal_strlit(" += ");
            assert(" += "@ =~= seq![' '] + operator_chars(TokenKind::AddAssign) + seq![' ']);
            lemma_occurs_split(input, identifier + " += "@, text, q);
            lemma_occurs_split(input, identifier, " += "@, q);
            lemma_spaced_operator(input, q + identifier.len(), " += "@, TokenKind::AddAssign);
            lemma_assignment_parts(input, pos, q, identifier, TokenKind::AddAssign, value);
        },
        _ => {},
    }
}

/// `name++` that is written is read as it is.
pub proof fn lemma_post_increment(input: Seq<char>, pos: int, q: int, s: StatementView)
    requires
        s is PostIncrement,
        gap(input, pos, q),
        occurs_at(input, render_statement(s), q),
        fits_statement(s, false),
        closes(input, q + render_statement(s).len()),
    ensures
        statement_reads(input, pos, q, s, q + render_statement(s).len()),
{
    let name = s->PostIncrement_identifier;
    reveal_strlit("++");
    lemma_operator_text(TokenKind::Increment);
    assert("++"@ =~= operator_chars(TokenKind::Increment));
    lemma_occurs_split(input, name, "++"@, q);
    lemma_occurs_char(input, "++"@, q + name.len(), 0);
    lemma_occurs_char(input, name, q, 0);
    assert(in_class(CharClass::Word, name[0]));
    lemma_lex_word(input, pos, q, false, name);
    lemma_lex_operator(input, q + name.len(), q + name.len(), false, TokenKind::Increment);
}

/// What the parser reads where a field, `=` and an expression stand.
#[verifier::rlimit(50)]
pub proof fn lemma_field_parts(
    input: Seq<char>,
    pos: int,
    q: int,
    field: ExpressionView,
    value: ExpressionView,
)
    requires
        gap(input, pos, q),
        fits(field, false),
        fits(value, false),
        q < input.len(),
        input[q] == '$',
        occurs_at(input, wrapped(render_expression(field), !is_simple(field)), q + 1),
        q + 3 + wrapped(render_expression(field), !is_simple(field)).len() < input.len(),
        input[q + 1 + wrapped(render_expression(field), !is_simple(field)).len()] == ' ',
        input[q + 2 + wrapped(render_expression(field), !is_simple(field)).len()] == '=',
        input[q + 3 + wrapped(render_expression(field), !is_simple(field)).len()] == ' ',
        occurs_at(
            input,
            render_expression(value),
            q + 4 + wrapped(render_expression(field), !is_simple(field)).len(),
        ),
        closes(
            input,
            q + 4 + wrapped(render_expression(field), !is_simple(field)).len()
                + render_expression(value).len(),
        ),
        is_stop(
            advance(
                input,
                q + 4 + wrapped(render_expression(field), !is_simple(field)).len()
                    + render_expression(value).len(),
                false,
            ).current.kind,
        ),
    ensures
        statement_reads(
            input,
            pos,
            q,
            StatementView::FieldAssignment { field, value },
            q + 4 + wrapped(render_expression(field), !is_simple(field)).len()
                + render_expression(value).len(),
        ),
{
    let target = wrapped(render_expression(field), !is_simple(field));
    let text = render_expression(value);
    lemma_first_char(field, false, !is_simple(field));
    lemma_first_char(value, false, false);
    let a = q + 1 + target.len();
    lemma_occurs_char(input, target, q + 1, 0);
    lemma_occurs_char(input, text, a + 3, 0);
    assert(input.subrange(a + 1, a + 2) =~= operator_chars(TokenKind::Assign));
    lemma_lex_mark(input, pos, q, false, TokenKind::DollarSign);
    lemma_lex_operator(input, a, a + 1, false, TokenKind::Assign);
    lemma_operand(input, q + 1, q + 1, false, field, !is_simple(field));
    lemma_expr(input, a + 2, a + 3, false, value);
    lemma_forward(input, q + 1, false, q + 1, a, a);
    let next = advance(input, q + 1, false);
    let st1 = advance(input, a, false);
    assert(within(input, crate::grammar::primary_at(input, next), next) == Ok::<
        (ExpressionView, PState),
        ParseErrorView,
    >((field, st1)));
    assert(compound_operator(TokenKind::Assign) is None);
    assert(st1.current.kind == TokenKind::Assign);
    assert(st1.position == a + 2);
}

/// An assignment to a field that is written is read as it is.
pub proof fn lemma_field_assignment(input: Seq<char>, pos: int, q: int, s: StatementView)
    requires
        s is FieldAssignment,
        gap(input, pos, q),
        occurs_at(input, render_statement(s), q),
        fits_statement(s, false),
        closes(input, q + render_statement(s).len()),
        is_stop(advance(input, q + render_statement(s).len(), false).current.kind),
    ensures
        statement_reads(input, pos, q, s, q + render_statement(s).len()),
{
    match s {
        StatementView::FieldAssignment { field, value } => {
            let target = wrapped(render_expression(field), !is_simple(field));
            let text = render_expression(value);
            reveal_strlit(" = ");
            lemma_occurs_split(input, seq!['$'] + target + " = "@, text, q);
            lemma_occurs_split(input, seq!['$'] + target, " = "@, q);
            lemma_occurs_split(input, seq!['$'], target, q);
            lemma_occurs_char(input, seq!['$'], q, 0);
            lemma_occurs_char(input, " = "@, q + 1 + target.len(), 0);
            lemma_occurs_char(input, " = "@, q + 1 + target.len(), 1);
            lemma_occurs_char(input, " = "@, q + 1 + target.len(), 2);
            lemma_field_parts(input, pos, q, field, value);
        },
        _ => {},
    }
}

/// What the parser reads where an array element, an assignment operator
/// and an expression stand.
#[verifier::rlimit(50)]
pub proof fn lemma_array_parts(
    input: Seq<char>,
    pos: int,
    q: int,
    name: Seq<char>,
    index: ExpressionView,
    operator: TokenKind,
    value: ExpressionView,
)
    requires
        gap(input, pos, q),
        is_name(name),
        fits(index, true),
        fits(value, false),
        operator == TokenKind::Assign || operator == TokenKind::AddAssign,
        occurs_at(input, name, q),
        q + name.len() + render_expression(index).len() + 3 + operator_chars(operator).len()
            < input.len(),
        input[q + name.len()] == '[',
        occurs_at(input, render_expression(index), q + name.len() + 1),
        input[q + name.len() + 1 + render_expression(index).len()] == ']',
        input[q + name.len() + 2 + render_expression(index).len()] == ' ',
        occurs_at(
            input,
            operator_chars(operator),
            q + name.len() + 3 + render_expression(index).len(),
        ),
        input[q + name.len() + 3 + render_expression(index).len() + operator_chars(
            operator,
        ).len()] == ' ',
        occurs_at(
            input,
            render_expression(value),
            q + name.len() + render_expression(index).len() + 4 + operator_chars(operator).len(),
        ),
        closes(
            input,
            q + name.len() + render_expression(index).len() + 4 + operator_chars(operator).len()
                + render_expression(value).len(),
        ),
        is_stop(
            advance(
                input,
                q + name.len() + render_expression(index).len() + 4 + operator_chars(
                    operator,
                ).len() + render_expression(value).len(),
                false,
            ).current.kind,
        ),
    ensures
        advance(input, pos, false) == state_of(TokenKind::Identifier, name, q, q + name.len()),
        assignment_at(input, advance(input, q + name.len(), false), name) == Ok::<
            (StatementView, PState),
            ParseErrorView,
        >(
            (
                if operator == TokenKind::Assign {
                    StatementView::ArrayAssignment { identifier: name, index, value }
                } else {
                    StatementView::ArrayAddAssignment { identifier: name, index, value }
                },
                advance(
                    input,
                    q + name.len() + render_expression(index).len() + 4 + operator_chars(
                        operator,
                    ).len() + render_expression(value).len(),
                    false,
                ),
            ),
        ),
{
    let op = operator_chars(operator);
    let inner = render_expression(index);
    let text = render_expression(value);
    lemma_first_char(index, true, false);
    lemma_first_char(value, false, false);
    let open = q + name.len();
    let close = open + 1 + inner.len();
    lemma_occurs_char(input, name, q, 0);
    lemma_occurs_char(input, inner, open + 1, 0);
    lemma_occurs_char(input, op, close + 2, 0);
    lemma_occurs_char(input, text, close + 3 + op.len(), 0);
    assert(in_class(CharClass::Word, name[0]));
    lemma_lex_word(input, pos, q, false, name);
    lemma_mark_follows(input, open, TokenKind::LeftSquareBracket);
    lemma_mark_follows(input, close, TokenKind::RightSquareBracket);
    lemma_lex_operator(input, close + 1, close + 2, false, operator);
    lemma_expr(input, open + 1, open + 1, true, index);
    lemma_expr(input, close + 2 + op.len(), close + 3 + op.len(), false, value);
    lemma_forward(input, open + 1, true, open + 1, close, close);
    let st = advance(input, open, false);
    let st1 = advance(input, open + 1, true);
    let st2 = advance(input, close, false);
    let st3 = advance(input, close + 1, false);
    assert(within(input, expression_at(input, st1, 0), st1) == Ok::<
        (ExpressionView, PState),
        ParseErrorView,
    >((index, st2)));
    assert(expect(input, st2, TokenKind::RightSquareBracket, Expected::RightBracket, false)
        == Ok::<PState, ParseErrorView>(st3));
    assert(st3.current.kind == operator);
    assert(st3.position == close + 2 + op.len());
}

/// Where the text of an assignment to an array element stands, its parts
/// stand.
pub proof fn lemma_array_text(
    input: Seq<char>,
    q: int,
    name: Seq<char>,
    inner: Seq<char>,
    lit: Seq<char>,
    operator: TokenKind,
    text: Seq<char>,
)
    requires
        operator == TokenKind::Assign || operator == TokenKind::AddAssign,
        lit == seq![']', ' '] + operator_chars(operator) + seq![' '],
        occurs_at(input, name + seq!['['] + inner + lit + text, q),
    ensures
        occurs_at(input, name, q),
        q + name.len() + inner.len() + 3 + operator_chars(operator).len() < input.len(),
        input[q + name.len()] == '[',
        occurs_at(input, inner, q + name.len() + 1),
        input[q + name.len() + 1 + inner.len()] == ']',
        input[q + name.len() + 2 + inner.len()] == ' ',
        occurs_at(input, operator_chars(operator), q + name.len() + 3 + inner.len()),
        input[q + name.len() + 3 + inner.len() + operator_chars(operator).len()] == ' ',
        occurs_at(
            input,
            text,
            q + name.len() + inner.len() + 4 + operator_chars(operator).len(),
        ),
        (name + seq!['['] + inner + lit + text).len() == name.len() + inner.len() + 4
            + operator_chars(operator).len() + text.len(),
{
    let op = operator_chars(operator);
    lemma_occurs_split(input, name + seq!['['] + inner + lit, text, q);
    lemma_occurs_split(input, name + seq!['['] + inner, lit, q);
    lemma_occurs_split(input, name + seq!['['], inner, q);
    lemma_occurs_split(input, name, seq!['['], q);
    let close = q + name.len() + 1 + inner.len();
    lemma_occurs_char(input, seq!['['], q + name.len(), 0);
    lemma_occurs_split(input, seq![']', ' '] + op, seq![' '], close);
    lemma_occurs_split(input, seq![']', ' '], op, close);
    lemma_occurs_char(input, seq![']', ' '], close, 0);
    lemma_occurs_char(input, seq![']', ' '], close, 1);
    lemma_occurs_char(input, seq![' '], close + 2 + op.len(), 0);
}

/// `name[index] = value` that is written is read as it is.
pub proof fn lemma_array_assignment(input: Seq<char>, pos: int, q: int, s: StatementView)
    requires
        s is ArrayAssignment,
        gap(input, pos, q),
        occurs_at(input, render_statement(s), q),
        fits_statement(s, false),
        closes(input, q + render_statement(s).len()),
        is_stop(advance(input, q + render_statement(s).len(), false).current.kind),
    ensures
        statement_reads(input, pos, q, s, q + render_statement(s).len()),
{
    match s {
        StatementView::ArrayAssignment { identifier, index, value } => {
            reveal_strlit("] = ");
            assert("] = "@ =~= seq![']', ' '] + operator_chars(TokenKind::Assign) + seq![' ']);
            lemma_array_text(
                input,
                q,
                identifier,
                render_expression(index),
                "] = "@,
                TokenKind::Assign,
                render_expression(value),
            );
            lemma_array_parts(input, pos, q, identifier, index, TokenKind::Assign, value);
        },
        _ => {},
    }
}

/// `name[index] += value` that is written is read as it is.
pub proof fn lemma_array_add_assignment(input: Seq<char>, pos: int, q: int, s: StatementView)
    requires
        s is ArrayAddAssignment,
        gap(input, pos, q),
        occurs_at(input, render_statement(s), q),
        fits_statement(s, false),
        closes(input, q + render_statement(s).len()),
        is_stop(advance(input, q + render_statement(s).len(), false).current.kind),
    ensures
        statement_reads(input, pos, q, s, q + render_statement(s).len()),
{
    match s {
        StatementView::ArrayAddAssignment { identifier, index, value } => {
            reveal_strlit("] += ");
            assert("] += "@ =~= seq![']', ' '] + operator_chars(TokenKind::AddAssign) + seq![
                ' ',
            ]);
            lemma_array_text(
                input,
                q,
                identifier,
                render_expression(index),
                "] += "@,
                TokenKind::AddAssign,
                render_expression(value),
            );
            lemma_array_parts(input, pos, q, identifier, index, TokenKind::AddAssign, value);
        },
        _ => {},
    }
}

/// `gsub` that is written is read as it is.
#[verifier::rlimit(50)]
pub proof fn lemma_gsub(input: Seq<char>, pos: int, q: int, s: StatementView)
    requires
        s is Gsub,
        gap(input, pos, q),
        occurs_at(input, render_statement(s), q),
        fits_statement(s, false),
        closes(input, q + render_statement(s).len()),
    ensures
        statement_reads(input, pos, q, s, q + render_statement(s).len()),
{
    reveal_strlit("gsub(");
    reveal_strlit("gsub");
    reveal_strlit(", ");
    lemma_word_gsub();
    match s {
        StatementView::Gsub { pattern, replacement } => {
            let a = render_expression(pattern);
            let b = render_expression(replacement);
            lemma_first_char(pattern, true, false);
            lemma_first_char(replacement, false, false);
            assert("gsub("@ =~= "gsub"@ + seq!['(']);
            let a_at = q + 5;
            let comma = a_at + a.len();
            let b_at = comma + 2;
            let b_end = b_at + b.len();
            lemma_occurs_split(input, "gsub("@ + a + ", "@ + b, seq![')'], q);
            lemma_occurs_split(input, "gsub("@ + a + ", "@, b, q);
            lemma_occurs_split(input, "gsub("@ + a, ", "@, q);
            lemma_occurs_split(input, "gsub("@, a, q);
            lemma_occurs_split(input, "gsub"@, seq!['('], q);
            lemma_occurs_char(input, seq!['('], q + 4, 0);
            lemma_occurs_char(input, a, a_at, 0);
            lemma_occurs_char(input, ", "@, comma, 0);
            lemma_occurs_char(input, ", "@, comma, 1);
            lemma_occurs_char(input, b, b_at, 0);
            lemma_occurs_char(input, seq![')'], b_end, 0);
            lemma_lex_word(input, pos, q, false, "gsub"@);
            lemma_mark_follows(input, q + 4, TokenKind::LeftParen);
            lemma_mark_follows(input, comma, TokenKind::Comma);
            lemma_mark_follows(input, b_end, TokenKind::RightParen);
            lemma_expr(input, a_at, a_at, true, pattern);
            lemma_expr(input, comma + 1, b_at, false, replacement);
            lemma_forward(input, a_at, true, a_at, comma, comma);
            let st0 = advance(input, pos, false);
            let next = advance(input, q + 4, false);
            let st1 = advance(input, a_at, true);
            let st2 = advance(input, comma, false);
            let st3 = advance(input, comma + 1, false);
            let st4 = advance(input, b_end, false);
            assert(expect(input, next, TokenKind::LeftParen, Expected::LeftParen, true) == Ok::<
                PState,
                ParseErrorView,
            >(st1));
            assert(within(input, expression_at(input, st1, 0), st1) == Ok::<
                (ExpressionView, PState),
                ParseErrorView,
            >((pattern, st2)));
            assert(expect(input, st2, TokenKind::Comma, Expected::Comma, false) == Ok::<
                PState,
                ParseErrorView,
            >(st3));
            assert(expect(input, st4, TokenKind::RightParen, Expected::RightParen, false) == Ok::<
                PState,
                ParseErrorView,
            >(advance(input, b_end + 1, false)));
            assert(gsub_at(input, st0) == Ok::<(StatementView, PState), ParseErrorView>(
                (s, advance(input, b_end + 1, false)),
            ));
        },
        _ => {},
    }
}

/// Where the arguments of `print` stand in a script, each of them stands
/// there, behind those before it.
pub proof fn lemma_print_places(input: Seq<char>, base: int, items: Seq<ExpressionView>, k: int)
    requires
        0 <= k <= items.len(),
        occurs_at(input, print_items_text(items, items.len()), base),
    ensures
        occurs_at(input, print_items_text(items, k as nat), base),
        k < items.len() ==> occurs_at(
            input,
            print_piece(items, k),
            base + print_items_text(items, k as nat).len(),
        ),
    decreases items.len() - k,
{
    if k < items.len() {
        lemma_print_places(input, base, items, k + 1);
        lemma_occurs_split(input, print_items_text(items, k as nat), print_piece(items, k), base);
    }
}

/// Where the arguments of `printf` stand in a script, each of them stands
/// there, behind those before it.
pub proof fn lemma_printf_places(input: Seq<char>, base: int, items: Seq<ExpressionView>, k: int)
    requires
        0 <= k <= items.len(),
        occurs_at(input, printf_items_text(items, items.len()), base),
    ensures
        occurs_at(input, printf_items_text(items, k as nat), base),
        k < items.len() ==> occurs_at(
            input,
            printf_piece(items, k),
            base + printf_items_text(items, k as nat).len(),
        ),
    decreases items.len() - k,
{
    if k < items.len() {
        lemma_printf_places(input, base, items, k + 1);
        lemma_occurs_split(input, printf_items_text(items, k as nat), printf_piece(items, k), base);
    }
}

/// The arguments of `print` that are written are read as they are, from the
/// argument of the even number `k` on.
#[verifier::rlimit(50)]
pub proof fn lemma_print_items(input: Seq<char>, base: int, items: Seq<ExpressionView>, k: int)
    requires
        fits_print(items),
        0 <= k < items.len(),
        k % 2 == 0,
        0 <= base,
        occurs_at(input, print_items_text(items, items.len()), base),
        closes(input, base + print_items_text(items, items.len()).len()),
        ends_statement(
            advance(input, base + print_items_text(items, items.len()).len(), false).current.kind,
        ),
    ensures
        arguments_at(
            input,
            advance(input, base + print_items_text(items, k as nat).len(), false),
            items.take(k),
            k > 0,
            true,
        ) == Ok::<(Seq<ExpressionView>, PState), ParseErrorView>(
            (items, advance(input, base + print_items_text(items, items.len()).len(), false)),
        ),
        is_expression_start(
            advance(input, base + print_items_text(items, k as nat).len(), false).current.kind,
        ),
        begins(
            advance(input, base + print_items_text(items, k as nat).len(), false),
            base + print_items_text(items, k as nat).len() + 1,
            base + print_items_text(items, items.len()).len(),
        ),
    decreases items.len() - k,
{
    let n = items.len() as int;
    let at = base + print_items_text(items, k as nat).len();
    let e = items[k];
    let text = render_expression(e);
    let end = at + 1 + text.len();
    let last = base + print_items_text(items, items.len()).len();
    lemma_print_places(input, base, items, k);
    lemma_print_places(input, base, items, k + 1);
    lemma_first_char(e, false, false);
    assert(print_piece(items, k) == seq![' '] + text);
    lemma_occurs_split(input, seq![' '], text, at);
    lemma_occurs_char(input, seq![' '], at, 0);
    lemma_occurs_char(input, text, at + 1, 0);
    assert(print_items_text(items, (k + 1) as nat).len() == print_items_text(
        items,
        k as nat,
    ).len() + 1 + text.len());
    let st = advance(input, at, false);
    let after = advance(input, end, false);
    assert(items.take(k).push(e) =~= items.take(k + 1));
    if k + 1 == n {
        assert(items.take(k + 1) =~= items);
        lemma_expr(input, at, at + 1, false, e);
        lemma_forward(input, at, false, at + 1, end, end);
        assert(arguments_at(input, after, items, false, true) == Ok::<
            (Seq<ExpressionView>, PState),
            ParseErrorView,
        >((items, after)));
    } else {
        lemma_print_places(input, base, items, k + 2);
        assert(print_piece(items, k + 1) == seq![',']);
        lemma_occurs_char(input, seq![','], end, 0);
        lemma_mark_follows(input, end, TokenKind::Comma);
        lemma_expr(input, at, at + 1, false, e);
        lemma_forward(input, at, false, at + 1, end, end);
        assert(items.take(k + 1).push(separator()) =~= items.take(k + 2));
        assert(print_items_text(items, (k + 2) as nat).len() == end - base + 1);
        lemma_print_items(input, base, items, k + 2);
        lemma_forward(input, end, false, end, end + 1, end + 1);
        let next = advance(input, end + 1, false);
        assert(arguments_at(input, after, items.take(k + 1), false, true) == arguments_at(
            input,
            next,
            items.take(k + 2),
            true,
            true,
        ));
    }
}

/// `print` that is written is read as it is.
#[verifier::rlimit(50)]
pub proof fn lemma_print(input: Seq<char>, pos: int, q: int, s: StatementView)
    requires
        s is Print,
        gap(input, pos, q),
        occurs_at(input, render_statement(s), q),
        fits_statement(s, false),
        closes(input, q + render_statement(s).len()),
        ends_statement(advance(input, q + render_statement(s).len(), false).current.kind),
    ensures
        statement_reads(input, pos, q, s, q + render_statement(s).len()),
{
    lemma_word_print();
    reveal_strlit("print");
    match s {
        StatementView::Print(items) => {
            let rest = print_items_text(items, items.len());
            lemma_occurs_split(input, "print"@, rest, q);
            let end = q + 5 + rest.len();
            if items.len() == 0 {
                crate::roundtrip::lemma_delimiter_ends(input, q + 5);
                lemma_lex_word(input, pos, q, false, "print"@);
                let after = advance(input, q + 5, false);
                assert(arguments_at(input, after, Seq::<ExpressionView>::empty(), false, true)
                    == Ok::<(Seq<ExpressionView>, PState), ParseErrorView>(
                    (Seq::<ExpressionView>::empty(), after),
                ));
                assert(items =~= Seq::<ExpressionView>::empty());
            } else {
                lemma_print_places(input, q + 5, items, 0);
                assert(print_piece(items, 0) == seq![' '] + render_expression(items[0]));
                lemma_occurs_split(input, seq![' '], render_expression(items[0]), q + 5);
                lemma_occurs_char(input, seq![' '], q + 5, 0);
                lemma_lex_word(input, pos, q, false, "print"@);
                lemma_print_items(input, q + 5, items, 0);
                assert(items.take(0) =~= Seq::<ExpressionView>::empty());
            }
        },
        _ => {},
    }
}

/// The arguments of `printf` that are written are read as they are, from
/// the argument of number `k` on.
#[verifier::rlimit(50)]
pub proof fn lemma_printf_items(input: Seq<char>, base: int, items: Seq<ExpressionView>, k: int)
    requires
        forall|i: int| 0 <= i < items.len() ==> fits(#[trigger] items[i], false),
        0 <= k <= items.len(),
        0 <= base,
        occurs_at(input, printf_items_text(items, items.len()), base),
        closes(input, base + printf_items_text(items, items.len()).len()),
        ends_statement(
            advance(input, base + printf_items_text(items, items.len()).len(), false).current.kind,
        ),
    ensures
        arguments_at(
            input,
            advance(input, base + printf_items_text(items, k as nat).len(), false),
            items.take(k),
            false,
            false,
        ) == Ok::<(Seq<ExpressionView>, PState), ParseErrorView>(
            (items, advance(input, base + printf_items_text(items, items.len()).len(), false)),
        ),
    decreases items.len() - k,
{
    reveal_strlit(", ");
    let n = items.len() as int;
    let at = base + printf_items_text(items, k as nat).len();
    let last = base + printf_items_text(items, items.len()).len();
    let st = advance(input, at, false);
    if k == n {
        assert(items.take(k) =~= items);
        assert(arguments_at(input, st, items, false, false) == Ok::<
            (Seq<ExpressionView>, PState),
            ParseErrorView,
        >((items, st)));
    } else {
        let e = items[k];
        let text = render_expression(e);
        lemma_printf_places(input, base, items, k);
        lemma_printf_places(input, base, items, k + 1);
        lemma_first_char(e, false, false);
        assert(items.take(k).push(e) =~= items.take(k + 1));
        // Where the argument starts and ends.
        let lead: int = if k == 0 {
            1
        } else {
            2
        };
        let start = at + lead;
        let end = start + text.len();
        if k == 0 {
            assert(printf_piece(items, k) == seq![' '] + text);
            lemma_occurs_split(input, seq![' '], text, at);
            lemma_occurs_char(input, seq![' '], at, 0);
        } else {
            assert(printf_piece(items, k) == ", "@ + text);
            lemma_occurs_split(input, ", "@, text, at);
            lemma_occurs_char(input, ", "@, at, 0);
            lemma_occurs_char(input, ", "@, at, 1);
            lemma_mark_follows(input, at, TokenKind::Comma);
        }
        lemma_occurs_char(input, text, start, 0);
        assert(printf_items_text(items, (k + 1) as nat).len() == end - base);
        if k + 1 < n {
            lemma_printf_places(input, base, items, k + 2);
            assert(printf_piece(items, k + 1) == ", "@ + render_expression(items[k + 1]));
            lemma_occurs_split(input, ", "@, render_expression(items[k + 1]), end);
            lemma_occurs_char(input, ", "@, end, 0);
            lemma_mark_follows(input, end, TokenKind::Comma);
        }
        lemma_expr(input, start - 1, start, false, e);
        lemma_printf_items(input, base, items, k + 1);
        lemma_forward(input, start - 1, false, start, end, end);
        let before = advance(input, start - 1, false);
        let after = advance(input, end, false);
        assert(arguments_at(input, before, items.take(k), k > 0, false) == arguments_at(
            input,
            after,
            items.take(k + 1),
            false,
            false,
        ));
        if k > 0 {
            lemma_forward(input, at, false, at, at + 1, at + 1);
            assert(arguments_at(input, st, items.take(k), false, false) == arguments_at(
                input,
                before,
                items.take(k),
                true,
                false,
            ));
        }
    }
}

/// `printf` that is written is read as it is.
#[verifier::rlimit(50)]
pub proof fn lemma_printf(input: Seq<char>, pos: int, q: int, s: StatementView)
    requires
        s is Printf,
        gap(input, pos, q),
        occurs_at(input, render_statement(s), q),
        fits_statement(s, false),
        closes(input, q + render_statement(s).len()),
        ends_statement(advance(input, q + render_statement(s).len(), false).current.kind),
    ensures
        statement_reads(input, pos, q, s, q + render_statement(s).len()),
{
    lemma_word_printf();
    reveal_strlit("printf");
    match s {
        StatementView::Printf(items) => {
            let rest = printf_items_text(items, items.len());
            lemma_occurs_split(input, "printf"@, rest, q);
            if items.len() == 0 {
                crate::roundtrip::lemma_delimiter_ends(input, q + 6);
            } else {
                lemma_printf_places(input, q + 6, items, 0);
                assert(printf_piece(items, 0) == seq![' '] + render_expression(items[0]));
                lemma_occurs_split(input, seq![' '], render_expression(items[0]), q + 6);
                lemma_occurs_char(input, seq![' '], q + 6, 0);
            }
            lemma_lex_word(input, pos, q, false, "printf"@);
            lemma_printf_items(input, q + 6, items, 0);
            assert(items.take(0) =~= Seq::<ExpressionView>::empty());
        },
        _ => {},
    }
}

/// Each statement of a block that fits, fits.
pub proof fn lemma_fits_block(ss: Seq<StatementView>, k: int)
    requires
        fits_block(ss),
        0 <= k < ss.len(),
    ensures
        fits_statement(ss[k], false),
    decreases ss.len(),
{
    if k < ss.len() - 1 {
        lemma_fits_block(ss.drop_last(), k);
    }
}

/// Where a statement of number `k` starts in the text of statements: at the
/// start for the first, and behind the text of those before it and `; ` for
/// the others.
pub open spec fn statement_start(ss: Seq<StatementView>, k: int) -> int {
    if k == 0 {
        0
    } else {
        (statements_text(ss.take(k)).len() + 2) as int
    }
}

/// Where the text of statements stands in a script, each statement stands
/// there, behind those before it and `; `.
pub proof fn lemma_statement_places(input: Seq<char>, base: int, ss: Seq<StatementView>, k: int)
    requires
        0 <= k <= ss.len(),
        occurs_at(input, statements_text(ss), base),
    ensures
        occurs_at(input, statements_text(ss.take(k)), base),
        k < ss.len() ==> occurs_at(input, render_statement(ss[k]), base + statement_start(ss, k)),
        k < ss.len() ==> statements_text(ss.take(k + 1)).len() == statement_start(ss, k)
            + render_statement(ss[k]).len(),
        0 < k < ss.len() ==> base + statements_text(ss.take(k)).len() + 1 < input.len()
            && input[base + statements_text(ss.take(k)).len()] == ';' && input[base
            + statements_text(ss.take(k)).len() + 1] == ' ',
    decreases ss.len() - k,
{
    reveal_strlit("; ");
    if k == ss.len() {
        assert(ss.take(k) =~= ss);
    } else {
        lemma_statement_places(input, base, ss, k + 1);
        let longer = ss.take(k + 1);
        assert(longer.drop_last() =~= ss.take(k));
        assert(longer.last() == ss[k]);
        if k == 0 {
            assert(statements_text(longer) == render_statement(ss[0]));
            assert(statements_text(ss.take(0)) =~= Seq::<char>::empty());
            assert(input.subrange(base, base) =~= Seq::<char>::empty());
        } else {
            let before = statements_text(ss.take(k));
            assert(statements_text(longer) == before + "; "@ + render_statement(ss[k]));
            lemma_occurs_split(input, before + "; "@, render_statement(ss[k]), base);
            lemma_occurs_split(input, before, "; "@, base);
            lemma_occurs_char(input, "; "@, base + before.len(), 0);
            lemma_occurs_char(input, "; "@, base + before.len(), 1);
        }
    }
}

/// The text of a statement that fits is not empty, and a token can start
/// with its first character.
pub proof fn lemma_statement_first_char(s: StatementView, header: bool)
    requires
        fits_statement(s, header),
    ensures
        render_statement(s).len() > 0,
        token_start(render_statement(s)[0]),
    decreases s,
{
    reveal_strlit("print");
    reveal_strlit("printf");
    reveal_strlit("gsub(");
    reveal_strlit("++");
    reveal_strlit("if (");
    reveal_strlit("while (");
    reveal_strlit("for (");
    reveal_strlit("exit");
    match s {
        StatementView::Assignment { identifier, value } => {
            assert(in_class(CharClass::Word, identifier[0]));
        },
        StatementView::AddAssignment { identifier, value } => {
            assert(in_class(CharClass::Word, identifier[0]));
        },
        StatementView::PostIncrement { identifier } => {
            assert(in_class(CharClass::Word, identifier[0]));
        },
        StatementView::ArrayAssignment { identifier, index, value } => {
            assert(in_class(CharClass::Word, identifier[0]));
        },
        StatementView::ArrayAddAssignment { identifier, index, value } => {
            assert(in_class(CharClass::Word, identifier[0]));
        },
        _ => {},
    }
}

/// Whether the parser reads the statements `ss` between braces from the
/// text that stands from `q` up to `end`: as a block, with the closing
/// brace, and as the action of a rule, up to the closing brace.
pub open spec fn block_reads(input: Seq<char>, pos: int, q: int, flag: bool, ss: Seq<StatementView>, end: int)
    -> bool {
    &&& advance(input, pos, flag) == state_of(
        TokenKind::LeftCurlyBrace,
        kind_text(TokenKind::LeftCurlyBrace),
        q,
        q + 1,
    )
    &&& statements_at(input, advance(input, q + 1, false), Seq::empty()) == Ok::<
        (Seq<StatementView>, PState),
        ParseErrorView,
    >(
        (
            ss,
            state_of(
                TokenKind::RightCurlyBrace,
                kind_text(TokenKind::RightCurlyBrace),
                end - 1,
                end,
            ),
        ),
    )
    &&& q + 3 <= end <= input.len()
}

/// A statement that is written is read as it is.
#[verifier::rlimit(50)]
pub proof fn lemma_statement(input: Seq<char>, pos: int, q: int, s: StatementView, header: bool)
    requires
        gap(input, pos, q),
        occurs_at(input, render_statement(s), q),
        fits_statement(s, header),
        closes(input, q + render_statement(s).len()),
        is_stop(advance(input, q + render_statement(s).len(), false).current.kind),
        !header ==> ends_statement(
            advance(input, q + render_statement(s).len(), false).current.kind,
        ),
    ensures
        statement_reads(input, pos, q, s, q + render_statement(s).len()),
    decreases s, 3int,
{
    match s {
        StatementView::Print(items) => lemma_print(input, pos, q, s),
        StatementView::Printf(items) => lemma_printf(input, pos, q, s),
        StatementView::Gsub { pattern, replacement } => lemma_gsub(input, pos, q, s),
        StatementView::Assignment { identifier, value } => lemma_assignment(input, pos, q, s),
        StatementView::FieldAssignment { field, value } => lemma_field_assignment(
            input,
            pos,
            q,
            s,
        ),
        StatementView::AddAssignment { identifier, value } => lemma_add_assignment(
            input,
            pos,
            q,
            s,
        ),
        StatementView::PreIncrement { identifier } => lemma_pre_increment(input, pos, q, s),
        StatementView::PostIncrement { identifier } => lemma_post_increment(input, pos, q, s),
        StatementView::If { condition, then_statements } => lemma_if(input, pos, q, s),
        StatementView::While { condition, statements } => lemma_while(input, pos, q, s),
        StatementView::For { init, condition, update, statements } => lemma_for(input, pos, q, s),
        StatementView::Exit => lemma_exit(input, pos, q),
        StatementView::ArrayAssignment { identifier, index, value } => lemma_array_assignment(
            input,
            pos,
            q,
            s,
        ),
        StatementView::ArrayAddAssignment {
            identifier,
            index,
            value,
        } => lemma_array_add_assignment(input, pos, q, s),
    }
}

/// The statements of a block that are written are read as they are, from
/// the statement of number `k` on.
#[verifier::rlimit(50)]
pub proof fn lemma_statements(input: Seq<char>, base: int, ss: Seq<StatementView>, k: int)
    requires
        fits_block(ss),
        ss.len() >= 1,
        0 <= k <= ss.len(),
        1 <= base,
        input[base - 1] == ' ',
        occurs_at(input, statements_text(ss), base),
        base + statements_text(ss).len() + 1 < input.len(),
        input[base + statements_text(ss).len()] == ' ',
        input[base + statements_text(ss).len() + 1] == '}',
    ensures
        statements_at(
            input,
            if k == 0 {
                advance(input, base - 1, false)
            } else {
                advance(input, base + statements_text(ss.take(k)).len(), false)
            },
            ss.take(k),
        ) == Ok::<(Seq<StatementView>, PState), ParseErrorView>(
            (
                ss,
                state_of(
                    TokenKind::RightCurlyBrace,
                    kind_text(TokenKind::RightCurlyBrace),
                    base + statements_text(ss).len() + 1,
                    base + statements_text(ss).len() + 2,
                ),
            ),
        ),
    decreases ss, ss.len() - k,
{
    let n = ss.len() as int;
    let last = base + statements_text(ss).len();
    lemma_lex_mark(input, last, last + 1, false, TokenKind::RightCurlyBrace);
    let closing = advance(input, last, false);
    if k == n {
        assert(ss.take(k) =~= ss);
        assert(skip_separators(input, closing) == closing);
    } else {
        let s = ss[k];
        lemma_fits_block(ss, k);
        lemma_statement_places(input, base, ss, k);
        lemma_statement_places(input, base, ss, k + 1);
        lemma_statement_first_char(s, false);
        let start = base + statement_start(ss, k);
        let end = start + render_statement(s).len();
        lemma_occurs_char(input, render_statement(s), start, 0);
        assert(ss.take(k).push(s) =~= ss.take(k + 1));
        assert(end == base + statements_text(ss.take(k + 1)).len());
        if k + 1 == n {
            assert(ss.take(k + 1) =~= ss);
        } else {
            lemma_mark_follows(input, end, TokenKind::Semicolon);
        }
        lemma_statement(input, start - 1, start, s, false);
        lemma_statements(input, base, ss, k + 1);
        let first = advance(input, start - 1, false);
        let after = advance(input, end, false);
        lemma_forward(input, start - 1, false, start, end, end);
        assert(skip_separators(input, first) == first);
        if k > 0 {
            let at = base + statements_text(ss.take(k)).len();
            lemma_mark_follows(input, at, TokenKind::Semicolon);
            let semicolon = advance(input, at, false);
            lemma_forward(input, at, false, at, at + 1, end);
            assert(skip_separators(input, semicolon) == skip_separators(input, first));
        }
    }
}

/// Statements between braces that are written are read as they are.
#[verifier::rlimit(50)]
pub proof fn lemma_block(input: Seq<char>, pos: int, q: int, flag: bool, ss: Seq<StatementView>)
    requires
        gap(input, pos, q),
        occurs_at(input, block_text(ss), q),
        fits_block(ss),
    ensures
        block_reads(input, pos, q, flag, ss, q + block_text(ss).len()),
    decreases ss, ss.len() + 1,
{
    reveal_strlit("{ }");
    reveal_strlit("{ ");
    reveal_strlit(" }");
    if ss.len() == 0 {
        lemma_occurs_char(input, "{ }"@, q, 0);
        lemma_occurs_char(input, "{ }"@, q, 1);
        lemma_occurs_char(input, "{ }"@, q, 2);
        lemma_lex_mark(input, pos, q, flag, TokenKind::LeftCurlyBrace);
        lemma_lex_mark(input, q + 1, q + 2, false, TokenKind::RightCurlyBrace);
        let closing = advance(input, q + 1, false);
        assert(skip_separators(input, closing) == closing);
        assert(ss =~= Seq::<StatementView>::empty());
    } else {
        let inner = statements_text(ss);
        lemma_occurs_split(input, "{ "@ + inner, " }"@, q);
        lemma_occurs_split(input, "{ "@, inner, q);
        lemma_occurs_char(input, "{ "@, q, 0);
        lemma_occurs_char(input, "{ "@, q, 1);
        lemma_occurs_char(input, " }"@, q + 2 + inner.len(), 0);
        lemma_occurs_char(input, " }"@, q + 2 + inner.len(), 1);
        lemma_lex_mark(input, pos, q, flag, TokenKind::LeftCurlyBrace);
        lemma_statements(input, q + 2, ss, 0);
        assert(ss.take(0) =~= Seq::<StatementView>::empty());
    }
}

/// What the parser reads where a condition in parentheses and a block
/// stand, behind the keyword that ends at `at`.
#[verifier::rlimit(50)]
pub proof fn lemma_condition_block(
    input: Seq<char>,
    at: int,
    condition: ExpressionView,
    ss: Seq<StatementView>,
)
    requires
        0 <= at,
        fits(condition, true),
        fits_block(ss),
        at + 1 < input.len(),
        input[at] == ' ',
        input[at + 1] == '(',
        occurs_at(input, render_expression(condition), at + 2),
        occurs_at(input, ") "@, at + 2 + render_expression(condition).len()),
        occurs_at(input, block_text(ss), at + 4 + render_expression(condition).len()),
    ensures
        advance(input, at, false).current.kind == TokenKind::LeftParen,
        advance(input, at, false).position == at + 2,
        within(
            input,
            condition_at(input, advance(input, at, false)),
            advance(input, at, false),
        ) == Ok::<(ExpressionView, PState), ParseErrorView>(
            (condition, advance(input, at + 3 + render_expression(condition).len(), false)),
        ),
        body_at(input, advance(input, at + 3 + render_expression(condition).len(), false))
            == Ok::<(Seq<StatementView>, PState), ParseErrorView>(
            (
                ss,
                advance(
                    input,
                    at + 4 + render_expression(condition).len() + block_text(ss).len(),
                    false,
                ),
            ),
        ),
        at + 4 + render_expression(condition).len() + block_text(ss).len() <= input.len(),
    decreases ss, ss.len() + 2,
{
    let c = render_expression(condition);
    let b = block_text(ss);
    lemma_first_char(condition, true, false);
    let open = at + 1;
    let close = open + 1 + c.len();
    reveal_strlit(") ");
    lemma_occurs_char(input, c, open + 1, 0);
    lemma_occurs_char(input, ") "@, close, 0);
    lemma_occurs_char(input, ") "@, close, 1);
    lemma_block_first_char(ss);
    lemma_occurs_char(input, b, close + 2, 0);
    lemma_lex_mark(input, at, open, false, TokenKind::LeftParen);
    lemma_mark_follows(input, close, TokenKind::RightParen);
    lemma_expr(input, open + 1, open + 1, true, condition);
    lemma_block(input, close + 1, close + 2, false, ss);
    let next = advance(input, at, false);
    let st1 = advance(input, open + 1, true);
    let st2 = advance(input, close, false);
    let st3 = advance(input, close + 1, false);
    assert(expect(input, next, TokenKind::LeftParen, Expected::LeftParen, true) == Ok::<
        PState,
        ParseErrorView,
    >(st1));
    assert(expect(input, st2, TokenKind::RightParen, Expected::RightParen, false) == Ok::<
        PState,
        ParseErrorView,
    >(st3));
    assert(skip_separators(input, st3) == st3);
    assert(condition_at(input, next) == Ok::<(ExpressionView, PState), ParseErrorView>(
        (condition, st3),
    ));
    lemma_forward(input, at, false, open, open + 1, close + 1);
    let end = close + 2 + b.len();
    assert(block_at(input, st3) == Ok::<(Seq<StatementView>, PState), ParseErrorView>(
        (ss, advance(input, end, false)),
    ));
}

/// The text of a block starts with its opening brace.
pub proof fn lemma_block_first_char(ss: Seq<StatementView>)
    ensures
        block_text(ss).len() >= 3,
        block_text(ss)[0] == '{',
{
    reveal_strlit("{ }");
    reveal_strlit("{ ");
    reveal_strlit(" }");
}

/// Where the text of a keyword, a condition and a block stands, its parts
/// stand.
pub proof fn lemma_condition_places(
    input: Seq<char>,
    q: int,
    word: Seq<char>,
    opening: Seq<char>,
    c: Seq<char>,
    b: Seq<char>,
)
    requires
        opening == word + seq![' ', '('],
        occurs_at(input, opening + c + ") "@ + b, q),
    ensures
        occurs_at(input, word, q),
        q + word.len() + 1 < input.len(),
        input[q + word.len()] == ' ',
        input[q + word.len() + 1] == '(',
        occurs_at(input, c, q + word.len() + 2),
        occurs_at(input, ") "@, q + word.len() + 2 + c.len()),
        occurs_at(input, b, q + word.len() + 4 + c.len()),
        (opening + c + ") "@ + b).len() == word.len() + 4 + c.len() + b.len(),
{
    reveal_strlit(") ");
    lemma_occurs_split(input, opening + c + ") "@, b, q);
    lemma_occurs_split(input, opening + c, ") "@, q);
    lemma_occurs_split(input, opening, c, q);
    lemma_keyword_paren(input, q, word, opening);
}

/// An `if` statement that is written is read as it is.
#[verifier::rlimit(50)]
pub proof fn lemma_if(input: Seq<char>, pos: int, q: int, s: StatementView)
    requires
        s is If,
        gap(input, pos, q),
        occurs_at(input, render_statement(s), q),
        fits_statement(s, false),
    ensures
        statement_reads(input, pos, q, s, q + render_statement(s).len()),
    decreases s, 1int,
{
    lemma_word_if();
    match s {
        StatementView::If { condition, then_statements } => {
            let c = render_expression(condition);
            let b = block_text(then_statements);
            reveal_strlit("if (");
            reveal_strlit("if");
            assert("if ("@ =~= "if"@ + seq![' ', '(']);
            lemma_condition_places(input, q, "if"@, "if ("@, c, b);
            lemma_lex_word(input, pos, q, false, "if"@);
            lemma_condition_block(input, q + 2, condition, then_statements);
            let st0 = advance(input, pos, false);
            assert(st0 == state_of(TokenKind::If, "if"@, q, q + 2));
            assert(if_at(input, st0) == Ok::<(StatementView, PState), ParseErrorView>(
                (s, advance(input, q + render_statement(s).len(), false)),
            ));
        },
        _ => {},
    }
}

/// Where a keyword with ` (` behind it stands, the keyword stands, and a
/// space and an opening parenthesis behind it.
pub proof fn lemma_keyword_paren(input: Seq<char>, q: int, word: Seq<char>, whole: Seq<char>)
    requires
        whole == word + seq![' ', '('],
        occurs_at(input, whole, q),
    ensures
        occurs_at(input, word, q),
        q + word.len() + 1 < input.len(),
        input[q + word.len()] == ' ',
        input[q + word.len() + 1] == '(',
        whole.len() == word.len() + 2,
{
    lemma_occurs_split(input, word, seq![' ', '('], q);
    lemma_occurs_char(input, seq![' ', '('], q + word.len(), 0);
    lemma_occurs_char(input, seq![' ', '('], q + word.len(), 1);
}

/// A `while` statement that is written is read as it is.
#[verifier::rlimit(50)]
pub proof fn lemma_while(input: Seq<char>, pos: int, q: int, s: StatementView)
    requires
        s is While,
        gap(input, pos, q),
        occurs_at(input, render_statement(s), q),
        fits_statement(s, false),
    ensures
        statement_reads(input, pos, q, s, q + render_statement(s).len()),
    decreases s, 1int,
{
    lemma_word_while();
    match s {
        StatementView::While { condition, statements } => {
            let c = render_expression(condition);
            let b = block_text(statements);
            reveal_strlit("while (");
            reveal_strlit("while");
            assert("while ("@ =~= "while"@ + seq![' ', '(']);
            lemma_condition_places(input, q, "while"@, "while ("@, c, b);
            lemma_lex_word(input, pos, q, false, "while"@);
            lemma_condition_block(input, q + 5, condition, statements);
            let st0 = advance(input, pos, false);
            assert(st0 == state_of(TokenKind::While, "while"@, q, q + 5));
            assert(while_at(input, st0) == Ok::<(StatementView, PState), ParseErrorView>(
                (s, advance(input, q + render_statement(s).len(), false)),
            ));
        },
        _ => {},
    }
}

/// Where the parts of a `for` statement stand behind the keyword that ends
/// at `at`.
pub open spec fn for_stands(input: Seq<char>, at: int, s: StatementView) -> bool {
    match s {
        StatementView::For { init, condition, update, statements } => {
            let i = render_statement(*init).len();
            let c = render_expression(condition).len();
            let u = render_statement(*update).len();
            &&& 0 <= at
            &&& at + 1 < input.len()
            &&& input[at] == ' '
            &&& input[at + 1] == '('
            &&& occurs_at(input, render_statement(*init), at + 2)
            &&& occurs_at(input, "; "@, at + 2 + i)
            &&& occurs_at(input, render_expression(condition), at + 4 + i)
            &&& occurs_at(input, "; "@, at + 4 + i + c)
            &&& occurs_at(input, render_statement(*update), at + 6 + i + c)
            &&& occurs_at(input, ") "@, at + 6 + i + c + u)
            &&& occurs_at(input, block_text(statements), at + 8 + i + c + u)
        },
        _ => false,
    }
}

/// What the parser reads from the head of a `for` statement up to its
/// condition.
#[verifier::rlimit(50)]
pub proof fn lemma_for_head(input: Seq<char>, at: int, s: StatementView)
    requires
        s is For,
        fits_statement(s, false),
        for_stands(input, at, s),
    ensures
        expect(
            input,
            advance(input, at, false),
            TokenKind::LeftParen,
            Expected::LeftParen,
            false,
        ) == Ok::<PState, ParseErrorView>(advance(input, at + 2, false)),
        within(
            input,
            statement_at(input, advance(input, at + 2, false)),
            advance(input, at + 2, false),
        ) == Ok::<(StatementView, PState), ParseErrorView>(
            (
                *s->For_init,
                advance(input, at + 2 + render_statement(*s->For_init).len(), false),
            ),
        ),
        expect(
            input,
            advance(input, at + 2 + render_statement(*s->For_init).len(), false),
            TokenKind::Semicolon,
            Expected::Semicolon,
            true,
        ) == Ok::<PState, ParseErrorView>(
            advance(input, at + 3 + render_statement(*s->For_init).len(), true),
        ),
        within(
            input,
            expression_at(
                input,
                advance(input, at + 3 + render_statement(*s->For_init).len(), true),
                0,
            ),
            advance(input, at + 3 + render_statement(*s->For_init).len(), true),
        ) == Ok::<(ExpressionView, PState), ParseErrorView>(
            (
                s->For_condition,
                advance(
                    input,
                    at + 4 + render_statement(*s->For_init).len() + render_expression(
                        s->For_condition,
                    ).len(),
                    false,
                ),
            ),
        ),
        advance(input, at, false).current.kind != TokenKind::Eof,
    decreases s, 0int,
{
    reveal_strlit("; ");
    match s {
        StatementView::For { init, condition, update, statements } => {
            let i = render_statement(*init);
            let c = render_expression(condition);
            lemma_statement_first_char(*init, true);
            lemma_first_char(condition, true, false);
            let i_at = at + 2;
            let semi1 = i_at + i.len();
            let c_at = semi1 + 2;
            let semi2 = c_at + c.len();
            lemma_occurs_char(input, i, i_at, 0);
            lemma_occurs_char(input, "; "@, semi1, 0);
            lemma_occurs_char(input, "; "@, semi1, 1);
            lemma_occurs_char(input, c, c_at, 0);
            lemma_occurs_char(input, "; "@, semi2, 0);
            lemma_lex_mark(input, at, at + 1, false, TokenKind::LeftParen);
            lemma_mark_follows(input, semi1, TokenKind::Semicolon);
            lemma_mark_follows(input, semi2, TokenKind::Semicolon);
            lemma_statement(input, i_at, i_at, *init, true);
            lemma_expr(input, semi1 + 1, c_at, true, condition);
            lemma_forward(input, i_at, false, i_at, semi1, semi1);
            lemma_forward(input, semi1 + 1, true, c_at, semi2, semi2);
        },
        _ => {},
    }
}

/// What the parser reads from the condition of a `for` statement on.
#[verifier::rlimit(50)]
pub proof fn lemma_for_tail(input: Seq<char>, at: int, s: StatementView)
    requires
        s is For,
        fits_statement(s, false),
        for_stands(input, at, s),
    ensures
        expect(
            input,
            advance(
                input,
                at + 4 + render_statement(*s->For_init).len() + render_expression(
                    s->For_condition,
                ).len(),
                false,
            ),
            TokenKind::Semicolon,
            Expected::Semicolon,
            false,
        ) == Ok::<PState, ParseErrorView>(
            advance(
                input,
                at + 5 + render_statement(*s->For_init).len() + render_expression(
                    s->For_condition,
                ).len(),
                false,
            ),
        ),
        within(
            input,
            statement_at(
                input,
                advance(
                    input,
                    at + 5 + render_statement(*s->For_init).len() + render_expression(
                        s->For_condition,
                    ).len(),
                    false,
                ),
            ),
            advance(
                input,
                at + 5 + render_statement(*s->For_init).len() + render_expression(
                    s->For_condition,
                ).len(),
                false,
            ),
        ) == Ok::<(StatementView, PState), ParseErrorView>(
            (
                *s->For_update,
                advance(
                    input,
                    at + 6 + render_statement(*s->For_init).len() + render_expression(
                        s->For_condition,
                    ).len() + render_statement(*s->For_update).len(),
                    false,
                ),
            ),
        ),
        expect(
            input,
            advance(
                input,
                at + 6 + render_statement(*s->For_init).len() + render_expression(
                    s->For_condition,
                ).len() + render_statement(*s->For_update).len(),
                false,
            ),
            TokenKind::RightParen,
            Expected::RightParen,
            false,
        ) == Ok::<PState, ParseErrorView>(
            advance(
                input,
                at + 7 + render_statement(*s->For_init).len() + render_expression(
                    s->For_condition,
                ).len() + render_statement(*s->For_update).len(),
                false,
            ),
        ),
        skip_separators(
            input,
            advance(
                input,
                at + 7 + render_statement(*s->For_init).len() + render_expression(
                    s->For_condition,
                ).len() + render_statement(*s->For_update).len(),
                false,
            ),
        ) == advance(
            input,
            at + 7 + render_statement(*s->For_init).len() + render_expression(
                s->For_condition,
            ).len() + render_statement(*s->For_update).len(),
            false,
        ),
        body_at(
            input,
            advance(
                input,
                at + 7 + render_statement(*s->For_init).len() + render_expression(
                    s->For_condition,
                ).len() + render_statement(*s->For_update).len(),
                false,
            ),
        ) == Ok::<(Seq<StatementView>, PState), ParseErrorView>(
            (
                s->For_statements,
                advance(
                    input,
                    at + 8 + render_statement(*s->For_init).len() + render_expression(
                        s->For_condition,
                    ).len() + render_statement(*s->For_update).len() + block_text(
                        s->For_statements,
                    ).len(),
                    false,
                ),
            ),
        ),
        at + 8 + render_statement(*s->For_init).len() + render_expression(
            s->For_condition,
        ).len() + render_statement(*s->For_update).len() + block_text(s->For_statements).len()
            <= input.len(),
    decreases s, 0int,
{
    reveal_strlit("; ");
    reveal_strlit(") ");
    match s {
        StatementView::For { init, condition, update, statements } => {
            let i = render_statement(*init);
            let c = render_expression(condition);
            let u = render_statement(*update);
            let b = block_text(statements);
            lemma_statement_first_char(*update, true);
            lemma_block_first_char(statements);
            let semi2 = at + 4 + i.len() + c.len();
            let u_at = semi2 + 2;
            let close = u_at + u.len();
            let b_at = close + 2;
            let end = b_at + b.len();
            lemma_occurs_char(input, "; "@, semi2, 0);
            lemma_occurs_char(input, "; "@, semi2, 1);
            lemma_occurs_char(input, u, u_at, 0);
            lemma_occurs_char(input, ") "@, close, 0);
            lemma_occurs_char(input, ") "@, close, 1);
            lemma_occurs_char(input, b, b_at, 0);
            lemma_mark_follows(input, semi2, TokenKind::Semicolon);
            lemma_mark_follows(input, close, TokenKind::RightParen);
            lemma_statement(input, semi2 + 1, u_at, *update, true);
            lemma_block(input, close + 1, b_at, false, statements);
            lemma_forward(input, semi2 + 1, false, u_at, close, close);
            let st7 = advance(input, close + 1, false);
            assert(skip_separators(input, st7) == st7);
            assert(block_at(input, st7) == Ok::<(Seq<StatementView>, PState), ParseErrorView>(
                (statements, advance(input, end, false)),
            ));
        },
        _ => {},
    }
}

/// Where the text of a `for` statement stands, its parts stand.
pub proof fn lemma_for_places(
    input: Seq<char>,
    q: int,
    i: Seq<char>,
    c: Seq<char>,
    u: Seq<char>,
    b: Seq<char>,
)
    requires
        occurs_at(input, "for ("@ + i + "; "@ + c + "; "@ + u + ") "@ + b, q),
    ensures
        occurs_at(input, "for"@, q),
        "for"@.len() == 3,
        q + 4 < input.len(),
        input[q + 3] == ' ',
        input[q + 4] == '(',
        occurs_at(input, i, q + 5),
        occurs_at(input, "; "@, q + 5 + i.len()),
        occurs_at(input, c, q + 7 + i.len()),
        occurs_at(input, "; "@, q + 7 + i.len() + c.len()),
        occurs_at(input, u, q + 9 + i.len() + c.len()),
        occurs_at(input, ") "@, q + 9 + i.len() + c.len() + u.len()),
        occurs_at(input, b, q + 11 + i.len() + c.len() + u.len()),
        ("for ("@ + i + "; "@ + c + "; "@ + u + ") "@ + b).len() == 11 + i.len() + c.len()
            + u.len() + b.len(),
{
    reveal_strlit("for (");
    reveal_strlit("for");
    reveal_strlit("; ");
    reveal_strlit(") ");
    lemma_occurs_split(input, "for ("@ + i + "; "@ + c + "; "@ + u + ") "@, b, q);
    lemma_occurs_split(input, "for ("@ + i + "; "@ + c + "; "@ + u, ") "@, q);
    lemma_occurs_split(input, "for ("@ + i + "; "@ + c + "; "@, u, q);
    lemma_occurs_split(input, "for ("@ + i + "; "@ + c, "; "@, q);
    lemma_occurs_split(input, "for ("@ + i + "; "@, c, q);
    lemma_occurs_split(input, "for ("@ + i, "; "@, q);
    lemma_occurs_split(input, "for ("@, i, q);
    assert("for ("@ =~= "for"@ + seq![' ', '(']);
    lemma_keyword_paren(input, q, "for"@, "for ("@);
}

/// What the parser reads where the parts of a `for` statement stand behind
/// the keyword.
#[verifier::rlimit(60)]
pub proof fn lemma_for_parts(input: Seq<char>, q: int, s: StatementView)
    requires
        s is For,
        fits_statement(s, false),
        for_stands(input, q + 3, s),
    ensures
        for_at(input, state_of(TokenKind::For, "for"@, q, q + 3)) == Ok::<
            (StatementView, PState),
            ParseErrorView,
        >(
            (
                s,
                advance(
                    input,
                    q + 11 + render_statement(*s->For_init).len() + render_expression(
                        s->For_condition,
                    ).len() + render_statement(*s->For_update).len() + block_text(
                        s->For_statements,
                    ).len(),
                    false,
                ),
            ),
        ),
        q + 11 + render_statement(*s->For_init).len() + render_expression(
            s->For_condition,
        ).len() + render_statement(*s->For_update).len() + block_text(s->For_statements).len()
            <= input.len(),
    decreases s, 1int,
{
    lemma_for_head(input, q + 3, s);
    lemma_for_tail(input, q + 3, s);
    match s {
        StatementView::For { init, condition, update, statements } => {
            let at = q + 3;
            let i = render_statement(*init).len();
            let c = render_expression(condition).len();
            let u = render_statement(*update).len();
            let b = block_text(statements).len();
            let st0 = state_of(TokenKind::For, "for"@, q, q + 3);
            let next = advance(input, at, false);
            let st1 = advance(input, at + 2, false);
            let st2 = advance(input, at + 2 + i, false);
            let st3 = advance(input, at + 3 + i, true);
            let st4 = advance(input, at + 4 + i + c, false);
            let st5 = advance(input, at + 5 + i + c, false);
            let st6 = advance(input, at + 6 + i + c + u, false);
            let st7 = advance(input, at + 7 + i + c + u, false);
            let st8 = advance(input, at + 8 + i + c + u + b, false);
            assert(advance(input, st0.position, false) == next);
            assert(expect(input, next, TokenKind::LeftParen, Expected::LeftParen, false) == Ok::<
                PState,
                ParseErrorView,
            >(st1));
            assert(within(input, statement_at(input, st1), st1) == Ok::<
                (StatementView, PState),
                ParseErrorView,
            >((*init, st2)));
            assert(expect(input, st2, TokenKind::Semicolon, Expected::Semicolon, true) == Ok::<
                PState,
                ParseErrorView,
            >(st3));
            assert(within(input, expression_at(input, st3, 0), st3) == Ok::<
                (ExpressionView, PState),
                ParseErrorView,
            >((condition, st4)));
            assert(expect(input, st4, TokenKind::Semicolon, Expected::Semicolon, false) == Ok::<
                PState,
                ParseErrorView,
            >(st5));
            assert(within(input, statement_at(input, st5), st5) == Ok::<
                (StatementView, PState),
                ParseErrorView,
            >((*update, st6)));
            assert(expect(input, st6, TokenKind::RightParen, Expected::RightParen, false) == Ok::<
                PState,
                ParseErrorView,
            >(st7));
            assert(body_at(input, skip_separators(input, st7)) == Ok::<
                (Seq<StatementView>, PState),
                ParseErrorView,
            >((statements, st8)));
        },
        _ => {},
    }
}

/// Where the text of a `for` statement stands, its keyword stands, and its
/// parts behind it.
pub proof fn lemma_for_text(input: Seq<char>, q: int, s: StatementView)
    requires
        s is For,
        0 <= q,
        occurs_at(input, render_statement(s), q),
    ensures
        for_stands(input, q + 3, s),
        occurs_at(input, "for"@, q),
        "for"@.len() == 3,
        render_statement(s).len() == 11 + render_statement(*s->For_init).len()
            + render_expression(s->For_condition).len() + render_statement(
            *s->For_update,
        ).len() + block_text(s->For_statements).len(),
{
    match s {
        StatementView::For { init, condition, update, statements } => {
            lemma_for_places(
                input,
                q,
                render_statement(*init),
                render_expression(condition),
                render_statement(*update),
                block_text(statements),
            );
        },
        _ => {},
    }
}

/// A `for` statement that is written is read as it is.
#[verifier::rlimit(50)]
pub proof fn lemma_for(input: Seq<char>, pos: int, q: int, s: StatementView)
    requires
        s is For,
        gap(input, pos, q),
        occurs_at(input, render_statement(s), q),
        fits_statement(s, false),
    ensures
        statement_reads(input, pos, q, s, q + render_statement(s).len()),
    decreases s, 2int,
{
    lemma_word_for();
    lemma_for_text(input, q, s);
    lemma_lex_word(input, pos, q, false, "for"@);
    let st0 = advance(input, pos, false);
    assert(st0 == state_of(TokenKind::For, "for"@, q, q + 3));
    lemma_for_parts(input, q, s);
    assert(statement_at(input, st0) == for_at(input, st0));
}

} // verus!
