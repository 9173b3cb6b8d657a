//! The text of a program parses back to the program.

use vstd::prelude::*;
use crate::ast::{ActionView, ExpressionView, ProgramView, RuleView, StatementView};
use crate::grammar::{
    action_at, advance, empty_program, expression_at, is_pattern_start, measure, parse,
    pattern_rule_at, rule_at, rules_at, statements_at, with_rule, PState, ParseErrorView,
};
use crate::lexing::{
    gap, lemma_lex_eof, lemma_lex_mark, lemma_lex_word, lemma_occurs_char, lemma_occurs_split,
    state_of, token_start,
};
use crate::render::{
    block_text, render_expression, render_program, render_rule, with_rule_text, with_rules_text,
};
use crate::roundtrip::{
    begins, closes, fits, head_kind, is_stop, lemma_expr, lemma_first_char, lemma_forward,
    lemma_mark_follows, lemma_word_begin, lemma_word_end,
};
use crate::roundtrip_statements::{block_reads, fits_block, lemma_block, lemma_block_first_char};
use crate::text::occurs_at;
use crate::token::{kind_text, TokenKind};

verus! {

/// Whether the text of the pattern `p` parses back to `p`: a range of two
/// expressions that fit, or one expression that fits, and no `substr` at
/// the start.
pub open spec fn fits_pattern(p: ExpressionView) -> bool {
    match p {
        ExpressionView::Infix { left, operator, right } => if operator == TokenKind::Comma {
            fits(*left, true) && fits(*right, true) && head_kind(*left, false)
                != TokenKind::Substr
        } else {
            fits(p, true) && head_kind(p, false) != TokenKind::Substr
        },
        _ => fits(p, true) && head_kind(p, false) != TokenKind::Substr,
    }
}

/// Whether the text of the rule `r` parses back to `r`. A pattern without
/// an action is the last rule of its script (`last`); a rule with an action
/// and no pattern is written as an action alone.
pub open spec fn fits_rule(r: RuleView, last: bool) -> bool {
    match r {
        RuleView::Begin(a) => fits_block(a.statements),
        RuleView::End(a) => fits_block(a.statements),
        RuleView::Action(a) => fits_block(a.statements),
        RuleView::PatternAction { pattern: Some(p), action: Some(a) } => fits_pattern(p)
            && fits_block(a.statements),
        RuleView::PatternAction { pattern: Some(p), action: None } => last && fits_pattern(p),
        RuleView::PatternAction { pattern: None, action } => false,
    }
}

/// Whether the parser reads the rule `r` from the text that stands from `q`
/// up to `end`, and is left before the token that it reads next.
pub open spec fn rule_reads(input: Seq<char>, pos: int, q: int, r: RuleView, end: int) -> bool {
    &&& rule_at(input, advance(input, pos, true)) is Ok
    &&& rule_at(input, advance(input, pos, true))->Ok_0.0 == Some(r)
    &&& rule_at(input, advance(input, pos, true))->Ok_0.1.position == end
    &&& begins(advance(input, pos, true), q, end)
    &&& end <= input.len()
}

/// The text of a pattern that fits is not empty, and a token can start with
/// its first character.
pub proof fn lemma_pattern_first_char(p: ExpressionView)
    requires
        fits_pattern(p),
    ensures
        render_expression(p).len() > 0,
        token_start(render_expression(p)[0]),
{
    match p {
        ExpressionView::Infix { left, operator, right } => {
            if operator == TokenKind::Comma {
                lemma_first_char(*left, true, false);
            } else {
                lemma_first_char(p, true, false);
            }
        },
        _ => {
            lemma_first_char(p, true, false);
        },
    }
}

/// A pattern that is written, and followed by an opening brace or the end
/// of the script, is read as it is.
#[verifier::rlimit(50)]
pub proof fn lemma_pattern(input: Seq<char>, pos: int, q: int, p: ExpressionView)
    requires
        gap(input, pos, q),
        occurs_at(input, render_expression(p), q),
        fits_pattern(p),
        closes(input, q + render_expression(p).len()),
        advance(input, q + render_expression(p).len(), false).current.kind
            == TokenKind::LeftCurlyBrace || advance(
            input,
            q + render_expression(p).len(),
            false,
        ).current.kind == TokenKind::Eof,
    ensures
        pattern_rule_at(input, advance(input, pos, true)) == (if advance(
            input,
            q + render_expression(p).len(),
            false,
        ).current.kind == TokenKind::LeftCurlyBrace {
            match action_at(input, advance(input, q + render_expression(p).len(), false)) {
                Err(e) => Err::<(RuleView, PState), ParseErrorView>(e),
                Ok((action, st4)) => Ok(
                    (RuleView::PatternAction { pattern: Some(p), action: Some(action) }, st4),
                ),
            }
        } else {
            Ok(
                (
                    RuleView::PatternAction { pattern: Some(p), action: None },
                    advance(input, q + render_expression(p).len(), false),
                ),
            )
        }),
        begins(advance(input, pos, true), q, q + render_expression(p).len()),
        is_pattern_start(advance(input, pos, true).current.kind),
{
    let end = q + render_expression(p).len();
    let range = match p {
        ExpressionView::Infix { left, operator, right } => operator == TokenKind::Comma,
        _ => false,
    };
    if range {
        match p {
            ExpressionView::Infix { left, operator, right } => {
                reveal_strlit(", ");
                let a = render_expression(*left);
                let b = render_expression(*right);
                lemma_first_char(*right, true, false);
                lemma_occurs_split(input, a + ", "@, b, q);
                lemma_occurs_split(input, a, ", "@, q);
                let comma = q + a.len();
                lemma_occurs_char(input, ", "@, comma, 0);
                lemma_occurs_char(input, ", "@, comma, 1);
                lemma_occurs_char(input, b, comma + 2, 0);
                lemma_mark_follows(input, comma, TokenKind::Comma);
                lemma_expr(input, pos, q, true, *left);
                lemma_expr(input, comma + 1, comma + 2, true, *right);
            },
            _ => {},
        }
    } else {
        lemma_expr(input, pos, q, true, p);
    }
}

/// A rule that is written is read as it is. A pattern without an action
/// stands at the end of the script.
#[verifier::rlimit(50)]
pub proof fn lemma_rule(input: Seq<char>, pos: int, q: int, r: RuleView, last: bool)
    requires
        gap(input, pos, q),
        occurs_at(input, render_rule(r), q),
        fits_rule(r, last),
        r matches RuleView::PatternAction { pattern, action: None } ==> q + render_rule(r).len()
            == input.len(),
    ensures
        rule_reads(input, pos, q, r, q + render_rule(r).len()),
{
    reveal_strlit("BEGIN ");
    reveal_strlit("BEGIN");
    reveal_strlit("END ");
    reveal_strlit("END");
    let end = q + render_rule(r).len();
    match r {
        RuleView::Begin(a) => {
            lemma_word_begin();
            let b = block_text(a.statements);
            lemma_block_first_char(a.statements);
            assert("BEGIN "@ =~= "BEGIN"@ + seq![' ']);
            lemma_occurs_split(input, "BEGIN "@, b, q);
            lemma_occurs_split(input, "BEGIN"@, seq![' '], q);
            lemma_occurs_char(input, seq![' '], q + 5, 0);
            lemma_occurs_char(input, b, q + 6, 0);
            lemma_lex_word(input, pos, q, true, "BEGIN"@);
            lemma_block(input, q + 5, q + 6, false, a.statements);
        },
        RuleView::End(a) => {
            lemma_word_end();
            let b = block_text(a.statements);
            lemma_block_first_char(a.statements);
            assert("END "@ =~= "END"@ + seq![' ']);
            lemma_occurs_split(input, "END "@, b, q);
            lemma_occurs_split(input, "END"@, seq![' '], q);
            lemma_occurs_char(input, seq![' '], q + 3, 0);
            lemma_occurs_char(input, b, q + 4, 0);
            lemma_lex_word(input, pos, q, true, "END"@);
            lemma_block(input, q + 3, q + 4, false, a.statements);
        },
        RuleView::Action(a) => {
            lemma_block(input, pos, q, true, a.statements);
        },
        RuleView::PatternAction { pattern: Some(p), action: Some(a) } => {
            let t = render_expression(p);
            let b = block_text(a.statements);
            lemma_block_first_char(a.statements);
            lemma_occurs_split(input, t + seq![' '], b, q);
            lemma_occurs_split(input, t, seq![' '], q);
            let mid = q + t.len();
            lemma_occurs_char(input, seq![' '], mid, 0);
            lemma_occurs_char(input, b, mid + 1, 0);
            lemma_lex_mark(input, mid, mid + 1, false, TokenKind::LeftCurlyBrace);
            lemma_block(input, mid, mid + 1, false, a.statements);
            lemma_pattern(input, pos, q, p);
        },
        RuleView::PatternAction { pattern: Some(p), action: None } => {
            lemma_lex_eof(input, end, false);
            lemma_pattern(input, pos, q, p);
        },
        RuleView::PatternAction { pattern: None, action } => {},
    }
}

/// The rules of a program in the order in which they are written: the
/// `BEGIN` blocks, the rules, the `END` blocks.
pub open spec fn all_rules(p: ProgramView) -> Seq<RuleView> {
    p.begin_blocks + p.rules + p.end_blocks
}

/// Whether the text of the program `p` parses back to `p`: each rule stands
/// in the list that it belongs to and fits, and a pattern without an action
/// is the last rule of all.
pub open spec fn fits_program(p: ProgramView) -> bool {
    &&& forall|i: int| 0 <= i < p.begin_blocks.len() ==> #[trigger] p.begin_blocks[i] is Begin
    &&& forall|i: int|
        0 <= i < p.rules.len() ==> #[trigger] p.rules[i] is Action || p.rules[i] is PatternAction
    &&& forall|i: int| 0 <= i < p.end_blocks.len() ==> #[trigger] p.end_blocks[i] is End
    &&& forall|i: int|
        0 <= i < all_rules(p).len() ==> fits_rule(
            #[trigger] all_rules(p)[i],
            i == all_rules(p).len() - 1,
        )
}

/// Writing rules behind rules is writing all of them.
pub proof fn lemma_rules_text_concat(text: Seq<char>, a: Seq<RuleView>, b: Seq<RuleView>)
    ensures
        with_rules_text(with_rules_text(text, a), b) == with_rules_text(text, a + b),
    decreases b.len(),
{
    if b.len() == 0 {
        assert(a + b =~= a);
    } else {
        lemma_rules_text_concat(text, a, b.drop_last());
        assert((a + b).drop_last() =~= a + b.drop_last());
        assert((a + b).last() == b.last());
    }
}

/// The text of a rule that fits is not empty, and a token can start with
/// its first character.
pub proof fn lemma_rule_first_char(r: RuleView, last: bool)
    requires
        fits_rule(r, last),
    ensures
        render_rule(r).len() > 0,
        token_start(render_rule(r)[0]),
{
    reveal_strlit("BEGIN ");
    reveal_strlit("END ");
    match r {
        RuleView::Begin(a) => {},
        RuleView::End(a) => {},
        RuleView::Action(a) => {
            lemma_block_first_char(a.statements);
        },
        RuleView::PatternAction { pattern: Some(p), action } => {
            lemma_pattern_first_char(p);
        },
        RuleView::PatternAction { pattern: None, action } => {},
    }
}

/// The text of the first `k` of the rules `all`.
pub open spec fn rules_text(all: Seq<RuleView>, k: int) -> Seq<char> {
    with_rules_text(Seq::empty(), all.take(k))
}

/// Where the rule of number `k` starts in the text of rules.
pub open spec fn rule_start(all: Seq<RuleView>, k: int) -> int {
    if k == 0 {
        0
    } else {
        (rules_text(all, k).len() + 1) as int
    }
}

/// Whether each of the rules `all` fits, the last one as the last.
pub open spec fn fit_all(all: Seq<RuleView>) -> bool {
    forall|i: int| 0 <= i < all.len() ==> fits_rule(#[trigger] all[i], i == all.len() - 1)
}

/// Where the text of rules stands in a script, each rule stands there,
/// behind those before it and a space.
#[verifier::rlimit(50)]
pub proof fn lemma_rule_places(input: Seq<char>, all: Seq<RuleView>, k: int)
    requires
        fit_all(all),
        0 <= k <= all.len(),
        occurs_at(input, rules_text(all, all.len() as int), 0),
    ensures
        occurs_at(input, rules_text(all, k), 0),
        k > 0 ==> rules_text(all, k).len() > 0,
        k < all.len() ==> occurs_at(input, render_rule(all[k]), rule_start(all, k)),
        k < all.len() ==> rules_text(all, k + 1).len() == rule_start(all, k) + render_rule(
            all[k],
        ).len(),
        0 < k < all.len() ==> rules_text(all, k).len() < input.len() && input[rules_text(
            all,
            k,
        ).len() as int] == ' ',
    decreases all.len() - k,
{
    if k < all.len() {
        lemma_rule_places(input, all, k + 1);
        let longer = all.take(k + 1);
        assert(longer.drop_last() =~= all.take(k));
        assert(longer.last() == all[k]);
        lemma_rule_first_char(all[k], k == all.len() - 1);
        let before = rules_text(all, k);
        if k == 0 {
            assert(before =~= Seq::<char>::empty());
            assert(input.subrange(0, 0) =~= Seq::<char>::empty());
        } else {
            lemma_rule_nonempty_text(all, k);
            assert(rules_text(all, k + 1) == before + seq![' '] + render_rule(all[k]));
            lemma_occurs_split(input, before + seq![' '], render_rule(all[k]), 0);
            lemma_occurs_split(input, before, seq![' '], 0);
            lemma_occurs_char(input, seq![' '], before.len() as int, 0);
        }
    } else {
        if k > 0 {
            lemma_rule_nonempty_text(all, k);
        }
    }
}

/// The text of one rule or more is not empty.
pub proof fn lemma_rule_nonempty_text(all: Seq<RuleView>, k: int)
    requires
        fit_all(all),
        0 < k <= all.len(),
    ensures
        rules_text(all, k).len() > 0,
{
    let shorter = all.take(k);
    assert(shorter.last() == all[k - 1]);
    lemma_rule_first_char(all[k - 1], k - 1 == all.len() - 1);
}

/// The program that holds the first `k` of the rules `all`, each in the
/// list that it belongs to.
pub open spec fn collected(all: Seq<RuleView>, k: int) -> ProgramView
    decreases k,
{
    if k <= 0 {
        empty_program()
    } else {
        with_rule(collected(all, k - 1), all[k - 1])
    }
}

/// `k`, kept within `0 ..= n`.
pub open spec fn clamped(k: int, n: int) -> int {
    if k < 0 {
        0
    } else if k > n {
        n
    } else {
        k
    }
}

/// The first rules of a program that fits, collected, are the first of its
/// `BEGIN` blocks, of its rules and of its `END` blocks.
#[verifier::rlimit(50)]
pub proof fn lemma_collected(p: ProgramView, k: int)
    requires
        fits_program(p),
        0 <= k <= all_rules(p).len(),
    ensures
        collected(all_rules(p), k) == (ProgramView {
            begin_blocks: p.begin_blocks.take(clamped(k, p.begin_blocks.len() as int)),
            rules: p.rules.take(clamped(k - p.begin_blocks.len(), p.rules.len() as int)),
            end_blocks: p.end_blocks.take(
                clamped(k - p.begin_blocks.len() - p.rules.len(), p.end_blocks.len() as int),
            ),
        }),
    decreases k,
{
    let all = all_rules(p);
    let nb = p.begin_blocks.len() as int;
    let nr = p.rules.len() as int;
    let ne = p.end_blocks.len() as int;
    if k == 0 {
        assert(p.begin_blocks.take(0) =~= Seq::<RuleView>::empty());
        assert(p.rules.take(0) =~= Seq::<RuleView>::empty());
        assert(p.end_blocks.take(0) =~= Seq::<RuleView>::empty());
    } else {
        lemma_collected(p, k - 1);
        let i = k - 1;
        let before = collected(all, i);
        let rule = all[i];
        if i < nb {
            assert(rule == p.begin_blocks[i]);
            assert(p.begin_blocks.take(i).push(rule) =~= p.begin_blocks.take(k));
            assert(p.rules.take(0) =~= p.rules.take(clamped(k - nb, nr)));
        } else if i < nb + nr {
            assert(rule == p.rules[i - nb]);
            assert(p.rules.take(i - nb).push(rule) =~= p.rules.take(k - nb));
        } else {
            assert(rule == p.end_blocks[i - nb - nr]);
            assert(p.end_blocks.take(i - nb - nr).push(rule) =~= p.end_blocks.take(k - nb - nr));
        }
    }
}

/// The rules of a program that are written are read as they are, from the
/// rule of number `k` on.
#[verifier::rlimit(50)]
pub proof fn lemma_rules(input: Seq<char>, p: ProgramView, k: int)
    requires
        fits_program(p),
        0 <= k <= all_rules(p).len(),
        input == rules_text(all_rules(p), all_rules(p).len() as int),
    ensures
        rules_at(
            input,
            advance(input, rules_text(all_rules(p), k).len() as int, true),
            collected(all_rules(p), k),
        ) == Ok::<ProgramView, ParseErrorView>(p),
    decreases all_rules(p).len() - k,
{
    let all = all_rules(p);
    let n = all.len() as int;
    assert(input.subrange(0, input.len() as int) =~= input);
    assert(all.take(n) =~= all);
    lemma_rule_places(input, all, k);
    let cursor = rules_text(all, k).len() as int;
    let st = advance(input, cursor, true);
    if k == n {
        lemma_collected(p, n);
        assert(p.begin_blocks.take(p.begin_blocks.len() as int) =~= p.begin_blocks);
        assert(p.rules.take(p.rules.len() as int) =~= p.rules);
        assert(p.end_blocks.take(p.end_blocks.len() as int) =~= p.end_blocks);
        lemma_lex_eof(input, cursor, true);
    } else {
        let r = all[k];
        let start = rule_start(all, k);
        let end = start + render_rule(r).len();
        lemma_rule_first_char(r, k == n - 1);
        lemma_occurs_char(input, render_rule(r), start, 0);
        lemma_rule_places(input, all, k + 1);
        if k == n - 1 {
            assert(end == input.len());
        }
        lemma_rule(input, cursor, start, r, k == n - 1);
        lemma_rules(input, p, k + 1);
        lemma_forward(input, cursor, true, start, end, end);
        let st1 = rule_at(input, st)->Ok_0.1;
        assert(advance(input, st1.position, true) == advance(input, end, true));
    }
}

/// A program that is written parses back to itself: the grammar reads the
/// text of a program that fits as the program.
#[verifier::rlimit(50)]
pub proof fn law_program_parses_back(p: ProgramView)
    requires
        fits_program(p),
    ensures
        parse(render_program(p)) == Ok::<ProgramView, ParseErrorView>(p),
{
    let all = all_rules(p);
    lemma_rules_text_concat(Seq::empty(), p.begin_blocks, p.rules);
    lemma_rules_text_concat(Seq::empty(), p.begin_blocks + p.rules, p.end_blocks);
    assert(all.take(all.len() as int) =~= all);
    assert(all.take(0) =~= Seq::<RuleView>::empty());
    let input = render_program(p);
    lemma_rules(input, p, 0);
}

} // verus!
