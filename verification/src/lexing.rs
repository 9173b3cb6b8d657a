//! Facts about the lexer: which token it reads where the text of a token
//! stands.
//!
//! The text of a program puts at most one space before a token. Where the
//! text of a token stands in a script behind such a gap, and what follows it
//! cannot be taken for a part of it, the lexer reads that token.

use vstd::prelude::*;
use crate::grammar::{advance, compound_operator, keeps_place, PState};
use crate::lexer::{closing, is_two_character, lex, operator_kind, skip_trivia};
use crate::text::{in_class, occurs_at, run_end, CharClass};
use crate::token::{function_kind, keyword_kind, kind_text, TokenKind, TokenView};

verus! {

/// Whether a token can start with `c`: `c` is no blank and opens no comment.
pub open spec fn token_start(c: char) -> bool {
    !(c == ' ' || c == '\t' || c == '\r' || c == '#')
}

/// Whether the token after the cursor at `pos` starts at `q`: at the cursor,
/// or after one space; `q` may be the end of the script.
pub open spec fn gap(input: Seq<char>, pos: int, q: int) -> bool {
    &&& 0 <= pos <= q <= input.len()
    &&& (q == pos || (q == pos + 1 && input[pos] == ' '))
    &&& (q < input.len() ==> token_start(input[q]))
}

/// The state of a parser whose token ahead is of kind `kind` with the text
/// `literal`, and stands from `q` up to `end`.
pub open spec fn state_of(kind: TokenKind, literal: Seq<char>, q: int, end: int) -> PState {
    PState { position: end, current: TokenView { kind, literal, offset: q as nat } }
}

/// Behind a gap the lexer looks for the token at its end.
pub proof fn lemma_gap(input: Seq<char>, pos: int, q: int)
    requires
        gap(input, pos, q),
    ensures
        skip_trivia(input, pos) == q,
{
    if q == pos + 1 {
        assert(skip_trivia(input, pos) == skip_trivia(input, pos + 1));
    }
}

/// A run of `k` characters of a class, with none of the class behind it,
/// ends after the `k` characters.
pub proof fn lemma_run_exact(input: Seq<char>, q: int, k: int, class: CharClass)
    requires
        0 <= q,
        0 <= k,
        q + k <= input.len(),
        forall|i: int| q <= i < q + k ==> in_class(class, #[trigger] input[i]),
        q + k < input.len() ==> !in_class(class, input[q + k]),
    ensures
        run_end(input, q, class) == q + k,
    decreases k,
{
    if k > 0 {
        assert(in_class(class, input[q]));
        lemma_run_exact(input, q + 1, k - 1, class);
    }
}

/// At the end of the script the lexer reads `Eof`.
pub proof fn lemma_lex_eof(input: Seq<char>, pos: int, flag: bool)
    requires
        gap(input, pos, input.len() as int),
    ensures
        advance(input, pos, flag) == state_of(
            TokenKind::Eof,
            kind_text(TokenKind::Eof),
            input.len() as int,
            input.len() as int,
        ),
{
    reveal(advance);
    lemma_gap(input, pos, input.len() as int);
}

/// Whether `kind` is the mark that is written as the one character `c`.
pub open spec fn is_mark(kind: TokenKind, c: char) -> bool {
    ||| kind == TokenKind::LeftCurlyBrace && c == '{'
    ||| kind == TokenKind::RightCurlyBrace && c == '}'
    ||| kind == TokenKind::LeftParen && c == '('
    ||| kind == TokenKind::RightParen && c == ')'
    ||| kind == TokenKind::LeftSquareBracket && c == '['
    ||| kind == TokenKind::RightSquareBracket && c == ']'
    ||| kind == TokenKind::Comma && c == ','
    ||| kind == TokenKind::Semicolon && c == ';'
    ||| kind == TokenKind::DollarSign && c == '$'
}

/// Where a mark stands, the lexer reads it, whatever follows.
pub proof fn lemma_lex_mark(input: Seq<char>, pos: int, q: int, flag: bool, kind: TokenKind)
    requires
        gap(input, pos, q),
        q < input.len(),
        is_mark(kind, input[q]),
    ensures
        advance(input, pos, flag) == state_of(kind, kind_text(kind), q, q + 1),
{
    reveal(advance);
    lemma_gap(input, pos, q);
}

/// The characters of an operator.
pub open spec fn operator_chars(kind: TokenKind) -> Seq<char> {
    match kind {
        TokenKind::Assign => seq!['='],
        TokenKind::Or => seq!['|', '|'],
        TokenKind::And => seq!['&', '&'],
        TokenKind::Equal => seq!['=', '='],
        TokenKind::NotEqual => seq!['!', '='],
        TokenKind::GreaterThan => seq!['>'],
        TokenKind::GreaterThanOrEqual => seq!['>', '='],
        TokenKind::LessThan => seq!['<'],
        TokenKind::LessThanOrEqual => seq!['<', '='],
        TokenKind::Tilde => seq!['~'],
        TokenKind::NoMatch => seq!['!', '~'],
        TokenKind::Plus => seq!['+'],
        TokenKind::Minus => seq!['-'],
        TokenKind::Asterisk => seq!['*'],
        TokenKind::Division => seq!['/'],
        TokenKind::Percent => seq!['%'],
        TokenKind::Caret => seq!['^'],
        TokenKind::AddAssign => seq!['+', '='],
        TokenKind::Increment => seq!['+', '+'],
        _ => Seq::empty(),
    }
}

/// Whether `kind` is an operator that the text of a program holds.
pub open spec fn is_written_operator(kind: TokenKind) -> bool {
    operator_chars(kind).len() > 0
}

/// The text of an operator is made of its characters.
pub proof fn lemma_operator_text(kind: TokenKind)
    requires
        is_written_operator(kind),
    ensures
        kind_text(kind) == operator_chars(kind),
{
    reveal_strlit("=");
    reveal_strlit("||");
    reveal_strlit("&&");
    reveal_strlit("==");
    reveal_strlit("!=");
    reveal_strlit(">");
    reveal_strlit(">=");
    reveal_strlit("<");
    reveal_strlit("<=");
    reveal_strlit("~");
    reveal_strlit("!~");
    reveal_strlit("+");
    reveal_strlit("-");
    reveal_strlit("*");
    reveal_strlit("/");
    reveal_strlit("%");
    reveal_strlit("^");
    reveal_strlit("+=");
    reveal_strlit("++");
    assert(kind_text(kind) =~= operator_chars(kind));
}

/// Where an operator stands, the lexer reads it: an operator of two
/// characters whatever follows, one of one character before a space. A `/`
/// is the operator only where no regex is allowed.
pub proof fn lemma_lex_operator(input: Seq<char>, pos: int, q: int, flag: bool, kind: TokenKind)
    requires
        gap(input, pos, q),
        is_written_operator(kind),
        occurs_at(input, operator_chars(kind), q),
        operator_chars(kind).len() == 1 ==> q + 1 < input.len() && input[q + 1] == ' ',
        kind == TokenKind::Division ==> !flag,
    ensures
        advance(input, pos, flag) == state_of(
            kind,
            kind_text(kind),
            q,
            q + operator_chars(kind).len(),
        ),
{
    reveal(advance);
    lemma_gap(input, pos, q);
    let chars = operator_chars(kind);
    assert(input.subrange(q, q + chars.len()) == chars);
    assert(input[q] == input.subrange(q, q + chars.len())[0]);
    if chars.len() == 2 {
        assert(input[q + 1] == input.subrange(q, q + chars.len())[1]);
    }
}

/// Whether `word` has the shape of a word: a letter or an underscore first,
/// and then letters, digits and underscores.
pub open spec fn is_word(word: Seq<char>) -> bool {
    &&& word.len() > 0
    &&& !in_class(CharClass::Digit, word[0])
    &&& forall|i: int| 0 <= i < word.len() ==> in_class(CharClass::Word, #[trigger] word[i])
}

/// The kind of the token that a word is.
pub open spec fn word_kind(word: Seq<char>) -> TokenKind {
    match keyword_kind(word) {
        Some(kind) => kind,
        None => match function_kind(word) {
            Some(kind) => kind,
            None => TokenKind::Identifier,
        },
    }
}

/// Whether what follows at `end` cannot be taken for a part of a word.
pub open spec fn word_ends(input: Seq<char>, end: int) -> bool {
    end == input.len() || (0 <= end < input.len() && !in_class(CharClass::Word, input[end]))
}

/// Where a word stands, and no word character follows it, the lexer reads
/// the word.
pub proof fn lemma_lex_word(input: Seq<char>, pos: int, q: int, flag: bool, word: Seq<char>)
    requires
        gap(input, pos, q),
        is_word(word),
        occurs_at(input, word, q),
        word_ends(input, q + word.len()),
    ensures
        advance(input, pos, flag) == state_of(word_kind(word), word, q, q + word.len()),
{
    reveal(advance);
    lemma_gap(input, pos, q);
    assert(input.subrange(q, q + word.len()) == word);
    assert forall|i: int| q <= i < q + word.len() implies in_class(
        CharClass::Word,
        #[trigger] input[i],
    ) by {
        assert(input[i] == word[i - q]);
    }
    lemma_run_exact(input, q, word.len() as int, CharClass::Word);
    assert(input[q] == word[0]);
}

/// Whether `digits` is a numeral without sign, point and exponent.
pub open spec fn is_digits(digits: Seq<char>) -> bool {
    &&& digits.len() > 0
    &&& forall|i: int| 0 <= i < digits.len() ==> in_class(CharClass::Digit, #[trigger] digits[i])
}

/// Whether what follows at `end` cannot be taken for a part of a number.
pub open spec fn number_ends(input: Seq<char>, end: int) -> bool {
    end == input.len() || (0 <= end < input.len() && !in_class(CharClass::Digit, input[end])
        && input[end] != '.' && input[end] != 'x' && input[end] != 'X')
}

/// Where digits stand, and what follows is no part of a number, the lexer
/// reads the digits as a number.
pub proof fn lemma_lex_digits(input: Seq<char>, pos: int, q: int, flag: bool, digits: Seq<char>)
    requires
        gap(input, pos, q),
        is_digits(digits),
        occurs_at(input, digits, q),
        number_ends(input, q + digits.len()),
    ensures
        advance(input, pos, flag) == state_of(TokenKind::Number, digits, q, q + digits.len()),
{
    reveal(advance);
    lemma_gap(input, pos, q);
    assert(input.subrange(q, q + digits.len()) == digits);
    assert forall|i: int| q <= i < q + digits.len() implies in_class(
        CharClass::Digit,
        #[trigger] input[i],
    ) by {
        assert(input[i] == digits[i - q]);
    }
    lemma_run_exact(input, q, digits.len() as int, CharClass::Digit);
    assert(input[q] == digits[0]);
    if digits.len() > 1 {
        assert(input[q + 1] == digits[1]);
        assert(in_class(CharClass::Digit, digits[1]));
    }
}

/// Where digits, a point and digits stand, and what follows is no part of a
/// number, the lexer reads them as a number.
pub proof fn lemma_lex_decimal(
    input: Seq<char>,
    pos: int,
    q: int,
    flag: bool,
    whole: Seq<char>,
    fraction: Seq<char>,
)
    requires
        gap(input, pos, q),
        is_digits(whole),
        is_digits(fraction),
        occurs_at(input, whole + seq!['.'] + fraction, q),
        number_ends(input, q + whole.len() + 1 + fraction.len()),
    ensures
        advance(input, pos, flag) == state_of(
            TokenKind::Number,
            whole + seq!['.'] + fraction,
            q,
            q + whole.len() + 1 + fraction.len(),
        ),
{
    reveal(advance);
    lemma_gap(input, pos, q);
    let text = whole + seq!['.'] + fraction;
    let point = q + whole.len();
    let end = point + 1 + fraction.len();
    assert(input.subrange(q, end) == text);
    assert forall|i: int| q <= i < point implies in_class(CharClass::Digit, #[trigger] input[i]) by {
        assert(input[i] == text[i - q]);
        assert(text[i - q] == whole[i - q]);
    }
    assert(input[point] == text[whole.len() as int]);
    assert forall|i: int| point + 1 <= i < end implies in_class(
        CharClass::Digit,
        #[trigger] input[i],
    ) by {
        assert(input[i] == text[i - q]);
        assert(text[i - q] == fraction[i - point - 1]);
    }
    lemma_run_exact(input, q, whole.len() as int, CharClass::Digit);
    lemma_run_exact(input, point + 1, fraction.len() as int, CharClass::Digit);
    assert(input[q] == whole[0]) by {
        assert(input[q] == text[0]);
    }
    assert(in_class(CharClass::Digit, whole[0]));
    if whole.len() > 1 {
        assert(in_class(CharClass::Digit, input[q + 1]));
    }
}

/// Whether `content` can stand between two `delim`: the first `delim` that
/// no backslash escapes in `content` with a `delim` behind it is the one
/// behind it.
pub open spec fn is_quotable(content: Seq<char>, delim: char) -> bool {
    closing(content.push(delim), 0, delim) == content.len()
}

/// The closing delimiter of a text that stands in a script is found in the
/// script where it is found in the text.
pub proof fn lemma_closing_local(input: Seq<char>, base: int, s: Seq<char>, i: int, delim: char)
    requires
        occurs_at(input, s, base),
        0 <= i <= s.len(),
        closing(s, i, delim) < s.len(),
    ensures
        closing(input, base + i, delim) == base + closing(s, i, delim),
    decreases s.len() - i,
{
    assert(input.subrange(base, base + s.len()) == s);
    if i < s.len() {
        assert(input[base + i] == input.subrange(base, base + s.len())[i]);
        if s[i] == delim {
        } else if s[i] == '\\' && i + 1 < s.len() {
            lemma_closing_local(input, base, s, i + 2, delim);
        } else {
            lemma_closing_local(input, base, s, i + 1, delim);
        }
    }
}

/// Where a string literal stands, the lexer reads it.
pub proof fn lemma_lex_string(input: Seq<char>, pos: int, q: int, flag: bool, content: Seq<char>)
    requires
        gap(input, pos, q),
        q < input.len(),
        input[q] == '"',
        occurs_at(input, content.push('"'), q + 1),
        is_quotable(content, '"'),
    ensures
        advance(input, pos, flag) == state_of(
            TokenKind::String,
            content,
            q,
            q + content.len() + 2,
        ),
{
    reveal(advance);
    lemma_gap(input, pos, q);
    lemma_closing_local(input, q + 1, content.push('"'), 0, '"');
    assert(input.subrange(q + 1, q + 1 + content.len() + 1) == content.push('"'));
    assert(input.subrange(q + 1, q + 1 + content.len()) =~= content);
}

/// Where a regex literal stands and a regex is allowed, the lexer reads it.
pub proof fn lemma_lex_regex(input: Seq<char>, pos: int, q: int, content: Seq<char>)
    requires
        gap(input, pos, q),
        q < input.len(),
        input[q] == '/',
        occurs_at(input, content.push('/'), q + 1),
        is_quotable(content, '/'),
    ensures
        advance(input, pos, true) == state_of(TokenKind::Regex, content, q, q + content.len() + 2),
{
    reveal(advance);
    lemma_gap(input, pos, q);
    lemma_closing_local(input, q + 1, content.push('/'), 0, '/');
    assert(input.subrange(q + 1, q + 1 + content.len() + 1) == content.push('/'));
    assert(input.subrange(q + 1, q + 1 + content.len()) =~= content);
}

/// A text that stands in a script stands there part by part.
pub proof fn lemma_occurs_split(input: Seq<char>, a: Seq<char>, b: Seq<char>, q: int)
    requires
        occurs_at(input, a + b, q),
    ensures
        occurs_at(input, a, q),
        occurs_at(input, b, q + a.len()),
{
    let whole = input.subrange(q, q + (a + b).len());
    assert(whole == a + b);
    assert(input.subrange(q, q + a.len()) =~= a) by {
        assert forall|i: int| 0 <= i < a.len() implies input.subrange(q, q + a.len())[i]
            == a[i] by {
            assert(whole[i] == (a + b)[i]);
        }
    }
    assert(input.subrange(q + a.len(), q + a.len() + b.len()) =~= b) by {
        assert forall|i: int| 0 <= i < b.len() implies input.subrange(
            q + a.len(),
            q + a.len() + b.len(),
        )[i] == b[i] by {
            assert(whole[a.len() + i] == (a + b)[a.len() + i]);
        }
    }
}

/// The character at a place of a text that stands in a script.
pub proof fn lemma_occurs_char(input: Seq<char>, t: Seq<char>, q: int, i: int)
    requires
        occurs_at(input, t, q),
        0 <= i < t.len(),
    ensures
        q + i < input.len(),
        input[q + i] == t[i],
{
    assert(input.subrange(q, q + t.len())[i] == t[i]);
}

/// A token that can become the operator of an expression is written as the
/// text of its kind, and the lexer says where: the text stands in the
/// script at the offset of the token.
pub proof fn lemma_lex_placed(input: Seq<char>, pos: int, flag: bool)
    ensures
        keeps_place(lex(input, pos, flag).kind) ==> lex(input, pos, flag).literal == kind_text(
            lex(input, pos, flag).kind,
        ) && occurs_at(input, kind_text(lex(input, pos, flag).kind), lex(input, pos, flag).start),
{
    let start = skip_trivia(input, pos);
    let found = lex(input, pos, flag);
    if keeps_place(found.kind) {
        reveal_strlit("=");
        reveal_strlit("||");
        reveal_strlit("&&");
        reveal_strlit("==");
        reveal_strlit("!=");
        reveal_strlit(">");
        reveal_strlit(">=");
        reveal_strlit("<");
        reveal_strlit("<=");
        reveal_strlit("~");
        reveal_strlit("!~");
        reveal_strlit("+");
        reveal_strlit("-");
        reveal_strlit("*");
        reveal_strlit("/");
        reveal_strlit("%");
        reveal_strlit("^");
        reveal_strlit("+=");
        reveal_strlit("-=");
        reveal_strlit("*=");
        reveal_strlit("/=");
        reveal_strlit("%=");
        reveal_strlit("^=");
        reveal_strlit(",");
        let text = kind_text(found.kind);
        assert(0 <= start < input.len());
        assert(text.len() == 1 || text.len() == 2);
        assert(text[0] == input[start]);
        if text.len() == 2 {
            assert(start + 1 < input.len());
            assert(text[1] == input[start + 1]);
        }
        assert(input.subrange(start, start + text.len()) =~= text);
    }
}

/// The operator that a compound assignment applies is written as the
/// assignment without its `=`.
pub proof fn lemma_compound_text(kind: TokenKind)
    requires
        compound_operator(kind) is Some,
    ensures
        kind_text(kind) == kind_text(compound_operator(kind)->Some_0) + seq!['='],
{
    reveal_strlit("+");
    reveal_strlit("-");
    reveal_strlit("*");
    reveal_strlit("/");
    reveal_strlit("%");
    reveal_strlit("^");
    reveal_strlit("+=");
    reveal_strlit("-=");
    reveal_strlit("*=");
    reveal_strlit("/=");
    reveal_strlit("%=");
    reveal_strlit("^=");
    assert(kind_text(kind) =~= kind_text(compound_operator(kind)->Some_0) + seq!['=']);
}

} // verus!
