//! The script that a syntax tree is written as.
//!
//! An operand that is itself made with an operator is written in
//! parentheses, so that the text stands for the tree it was written from.

use vstd::prelude::*;
use crate::ast::{
    expressions_view, rules_view, statements_view, Action, Expression, ExpressionView, Program,
    ProgramView, Rule, RuleView, Statement, StatementView,
};
use crate::grammar::separator;
use crate::numeral::exact_text;
use crate::text::{chars_of, is_text, push_all, string_of};
use crate::token::{kind_string, kind_text, TokenKind};

verus! {

/// `text`, in parentheses if `wrap`.
pub open spec fn wrapped(text: Seq<char>, wrap: bool) -> Seq<char> {
    if wrap {
        seq!['('] + text + seq![')']
    } else {
        text
    }
}

/// Whether an expression is made with an operator, written or not.
pub open spec fn is_compound(e: ExpressionView) -> bool {
    e is Infix || e is Concatenation
}

/// Whether an expression can follow `$` without parentheses.
pub open spec fn is_simple(e: ExpressionView) -> bool {
    e is Number || e is Identifier || e is Field
}

/// The text of an expression.
pub open spec fn render_expression(e: ExpressionView) -> Seq<char>
    decreases e,
{
    match e {
        ExpressionView::Number(n) => exact_text(n),
        ExpressionView::String(s) => seq!['"'] + s + seq!['"'],
        ExpressionView::Regex(s) => seq!['/'] + s + seq!['/'],
        ExpressionView::Field(inner) => seq!['$'] + wrapped(
            render_expression(*inner),
            !is_simple(*inner),
        ),
        ExpressionView::Identifier(s) => s,
        ExpressionView::ArrayAccess { identifier, index } => identifier + seq!['[']
            + render_expression(*index) + seq![']'],
        ExpressionView::Length(None) => "length"@,
        ExpressionView::Length(Some(inner)) => "length("@ + render_expression(*inner) + seq![')'],
        ExpressionView::Substr { string, start, length: None } => "substr("@ + render_expression(
            *string,
        ) + ", "@ + render_expression(*start) + seq![')'],
        ExpressionView::Substr { string, start, length: Some(length) } => "substr("@
            + render_expression(*string) + ", "@ + render_expression(*start) + ", "@
            + render_expression(*length) + seq![')'],
        ExpressionView::Concatenation { left, right } => wrapped(
            render_expression(*left),
            *left is Infix,
        ) + seq![' '] + wrapped(render_expression(*right), is_compound(*right)),
        ExpressionView::Infix { left, operator, right } => if operator == TokenKind::Comma {
            render_expression(*left) + ", "@ + render_expression(*right)
        } else {
            wrapped(render_expression(*left), is_compound(*left)) + seq![' '] + kind_text(operator)
                + seq![' '] + wrapped(render_expression(*right), is_compound(*right))
        },
    }
}

/// Whether the item at `i` of the arguments of `print` stands for a comma:
/// it is the single space that the parser leaves for one, and it stands
/// between two other items.
pub open spec fn is_comma_at(items: Seq<ExpressionView>, i: int) -> bool {
    0 < i < items.len() - 1 && items[i] == separator()
}

/// What the item at `i` adds to the text of `print`.
pub open spec fn print_piece(items: Seq<ExpressionView>, i: int) -> Seq<char> {
    if is_comma_at(items, i) {
        seq![',']
    } else {
        seq![' '] + render_expression(items[i])
    }
}

/// The text of the first `n` arguments of `print`.
pub open spec fn print_items_text(items: Seq<ExpressionView>, n: nat) -> Seq<char>
    decreases n,
{
    if n == 0 {
        Seq::empty()
    } else {
        print_items_text(items, (n - 1) as nat) + print_piece(items, n - 1)
    }
}

/// What the item at `i` adds to the text of `printf`.
pub open spec fn printf_piece(items: Seq<ExpressionView>, i: int) -> Seq<char> {
    if i == 0 {
        seq![' '] + render_expression(items[i])
    } else {
        ", "@ + render_expression(items[i])
    }
}

/// The text of the first `n` arguments of `printf`.
pub open spec fn printf_items_text(items: Seq<ExpressionView>, n: nat) -> Seq<char>
    decreases n,
{
    if n == 0 {
        Seq::empty()
    } else {
        printf_items_text(items, (n - 1) as nat) + printf_piece(items, n - 1)
    }
}

/// The text of a statement.
pub open spec fn render_statement(s: StatementView) -> Seq<char>
    decreases s, 0int,
{
    match s {
        StatementView::Print(items) => "print"@ + print_items_text(items, items.len()),
        StatementView::Printf(items) => "printf"@ + printf_items_text(items, items.len()),
        StatementView::Gsub { pattern, replacement } => "gsub("@ + render_expression(pattern)
            + ", "@ + render_expression(replacement) + seq![')'],
        StatementView::Assignment { identifier, value } => identifier + " = "@
            + render_expression(value),
        StatementView::FieldAssignment { field, value } => seq!['$'] + wrapped(
            render_expression(field),
            !is_simple(field),
        ) + " = "@ + render_expression(value),
        StatementView::AddAssignment { identifier, value } => identifier + " += "@
            + render_expression(value),
        StatementView::PreIncrement { identifier } => "++"@ + identifier,
        StatementView::PostIncrement { identifier } => identifier + "++"@,
        StatementView::If { condition, then_statements } => "if ("@ + render_expression(condition)
            + ") "@ + block_text(then_statements),
        StatementView::While { condition, statements } => "while ("@ + render_expression(
            condition,
        ) + ") "@ + block_text(statements),
        StatementView::For { init, condition, update, statements } => "for ("@ + render_statement(
            *init,
        ) + "; "@ + render_expression(condition) + "; "@ + render_statement(*update) + ") "@
            + block_text(statements),
        StatementView::Exit => "exit"@,
        StatementView::ArrayAssignment { identifier, index, value } => identifier + seq!['[']
            + render_expression(index) + "] = "@ + render_expression(value),
        StatementView::ArrayAddAssignment { identifier, index, value } => identifier + seq!['[']
            + render_expression(index) + "] += "@ + render_expression(value),
    }
}

/// The text of statements, with `; ` between them.
pub open spec fn statements_text(ss: Seq<StatementView>) -> Seq<char>
    decreases ss, 0int,
{
    if ss.len() == 0 {
        Seq::empty()
    } else if ss.len() == 1 {
        render_statement(ss[0])
    } else {
        statements_text(ss.drop_last()) + "; "@ + render_statement(ss.last())
    }
}

/// The text of statements between braces.
pub open spec fn block_text(ss: Seq<StatementView>) -> Seq<char>
    decreases ss, 1int,
{
    if ss.len() == 0 {
        "{ }"@
    } else {
        "{ "@ + statements_text(ss) + " }"@
    }
}

/// The text of a rule.
pub open spec fn render_rule(r: RuleView) -> Seq<char> {
    match r {
        RuleView::Begin(a) => "BEGIN "@ + block_text(a.statements),
        RuleView::End(a) => "END "@ + block_text(a.statements),
        RuleView::Action(a) => block_text(a.statements),
        RuleView::PatternAction { pattern: Some(p), action: Some(a) } => render_expression(p)
            + seq![' '] + block_text(a.statements),
        RuleView::PatternAction { pattern: Some(p), action: None } => render_expression(p),
        RuleView::PatternAction { pattern: None, action: Some(a) } => block_text(a.statements),
        RuleView::PatternAction { pattern: None, action: None } => Seq::empty(),
    }
}

/// `text` with the rule `r` after it, and a space between the two if `text`
/// is not empty.
pub open spec fn with_rule_text(text: Seq<char>, r: RuleView) -> Seq<char> {
    if text.len() == 0 {
        render_rule(r)
    } else {
        text + seq![' '] + render_rule(r)
    }
}

/// `text` with the rules `rs` after it.
pub open spec fn with_rules_text(text: Seq<char>, rs: Seq<RuleView>) -> Seq<char>
    decreases rs.len(),
{
    if rs.len() == 0 {
        text
    } else {
        with_rule_text(with_rules_text(text, rs.drop_last()), rs.last())
    }
}

/// The text of a program: its `BEGIN` blocks, its rules and its `END`
/// blocks, with a space between each two.
pub open spec fn render_program(p: ProgramView) -> Seq<char> {
    with_rules_text(
        with_rules_text(with_rules_text(Seq::empty(), p.begin_blocks), p.rules),
        p.end_blocks,
    )
}

/// `text`, in parentheses if `wrap`.
fn wrap_chars(text: Vec<char>, wrap: bool) -> (out: Vec<char>)
    ensures
        out@ == wrapped(text@, wrap),
{
    if wrap {
        let mut out: Vec<char> = Vec::new();
        out.push('(');
        push_all(&mut out, &text);
        out.push(')');
        assert(out@ =~= seq!['('] + text@ + seq![')']);
        out
    } else {
        text
    }
}

/// Appends the characters of `s` to `out`.
fn push_str(out: &mut Vec<char>, s: &str)
    ensures
        final(out)@ == old(out)@ + s@,
{
    let more = chars_of(s);
    push_all(out, &more);
}

/// Whether an expression is made with an operator.
fn compound(e: &Expression) -> (r: bool)
    ensures
        r == is_compound(e@),
{
    match e {
        Expression::Infix { .. } => true,
        Expression::Concatenation { .. } => true,
        _ => false,
    }
}

/// Whether an expression is made with a written operator.
fn infix(e: &Expression) -> (r: bool)
    ensures
        r == (e@ is Infix),
{
    match e {
        Expression::Infix { .. } => true,
        _ => false,
    }
}

/// Whether an expression can follow `$` without parentheses.
fn simple(e: &Expression) -> (r: bool)
    ensures
        r == is_simple(e@),
{
    match e {
        Expression::Number(_) => true,
        Expression::Identifier(_) => true,
        Expression::Field(_) => true,
        _ => false,
    }
}

/// Whether an expression is the single space that stands for a comma.
fn is_separator(e: &Expression) -> (r: bool)
    ensures
        r == (e@ == separator()),
{
    proof {
        reveal_strlit(" ");
        assert(" "@ =~= seq![' ']);
    }
    match e {
        Expression::String(s) => is_text(s, " "),
        _ => false,
    }
}

/// The text of an expression.
pub fn expression_chars(e: &Expression) -> (out: Vec<char>)
    ensures
        out@ == render_expression(e@),
    decreases e,
{
    match e {
        Expression::Number(n) => n.exact_chars(),
        Expression::String(s) => {
            let mut out: Vec<char> = Vec::new();
            out.push('"');
            push_str(&mut out, s.as_str());
            out.push('"');
            assert(out@ =~= seq!['"'] + s@ + seq!['"']);
            out
        },
        Expression::Regex(s) => {
            let mut out: Vec<char> = Vec::new();
            out.push('/');
            push_str(&mut out, s.as_str());
            out.push('/');
            assert(out@ =~= seq!['/'] + s@ + seq!['/']);
            out
        },
        Expression::Field(inner) => {
            let mut out: Vec<char> = Vec::new();
            out.push('$');
            let text = wrap_chars(expression_chars(inner), !simple(inner));
            push_all(&mut out, &text);
            assert(out@ =~= seq!['$'] + text@);
            out
        },
        Expression::Identifier(s) => chars_of(s.as_str()),
        Expression::ArrayAccess { identifier, index } => {
            let mut out = chars_of(identifier.as_str());
            out.push('[');
            let text = expression_chars(index);
            push_all(&mut out, &text);
            out.push(']');
            assert(out@ =~= identifier@ + seq!['['] + text@ + seq![']']);
            out
        },
        Expression::Length(None) => chars_of("length"),
        Expression::Length(Some(inner)) => {
            let mut out = chars_of("length(");
            let text = expression_chars(inner);
            push_all(&mut out, &text);
            out.push(')');
            assert(out@ =~= "length("@ + text@ + seq![')']);
            out
        },
        Expression::Substr { string, start, length } => {
            let mut out = chars_of("substr(");
            let first = expression_chars(string);
            push_all(&mut out, &first);
            push_str(&mut out, ", ");
            let second = expression_chars(start);
            push_all(&mut out, &second);
            match length {
                None => {
                    out.push(')');
                    assert(out@ =~= "substr("@ + first@ + ", "@ + second@ + seq![')']);
                },
                Some(length) => {
                    push_str(&mut out, ", ");
                    let third = expression_chars(length);
                    push_all(&mut out, &third);
                    out.push(')');
                    assert(out@ =~= "substr("@ + first@ + ", "@ + second@ + ", "@ + third@
                        + seq![')']);
                },
            }
            out
        },
        Expression::Concatenation { left, right } => {
            let mut out = wrap_chars(expression_chars(left), infix(left));
            out.push(' ');
            let text = wrap_chars(expression_chars(right), compound(right));
            push_all(&mut out, &text);
            out
        },
        Expression::Infix { left, operator, right } => {
            if operator.kind == TokenKind::Comma {
                let mut out = expression_chars(left);
                push_str(&mut out, ", ");
                let text = expression_chars(right);
                push_all(&mut out, &text);
                out
            } else {
                let mut out = wrap_chars(expression_chars(left), compound(left));
                out.push(' ');
                let symbol = kind_string(operator.kind);
                push_str(&mut out, symbol.as_str());
                out.push(' ');
                let text = wrap_chars(expression_chars(right), compound(right));
                push_all(&mut out, &text);
                out
            }
        },
    }
}

/// The text of the arguments of `print`.
fn print_items_chars(items: &Vec<Expression>) -> (out: Vec<char>)
    ensures
        out@ == print_items_text(expressions_view(items@), items@.len()),
{
    let ghost views = expressions_view(items@);
    let mut out: Vec<char> = Vec::new();
    let mut i: usize = 0;
    while i < items.len()
        invariant
            i <= items.len(),
            views == expressions_view(items@),
            out@ == print_items_text(views, i as nat),
        decreases items.len() - i,
    {
        if i > 0 && i < items.len() - 1 && is_separator(&items[i]) {
            out.push(',');
            assert(out@ =~= print_items_text(views, i as nat) + seq![',']);
        } else {
            let mut piece: Vec<char> = Vec::new();
            piece.push(' ');
            let text = expression_chars(&items[i]);
            push_all(&mut piece, &text);
            assert(piece@ =~= seq![' '] + render_expression(views[i as int]));
            push_all(&mut out, &piece);
        }
        i += 1;
    }
    out
}

/// The text of the arguments of `printf`.
fn printf_items_chars(items: &Vec<Expression>) -> (out: Vec<char>)
    ensures
        out@ == printf_items_text(expressions_view(items@), items@.len()),
{
    let ghost views = expressions_view(items@);
    let mut out: Vec<char> = Vec::new();
    let mut i: usize = 0;
    while i < items.len()
        invariant
            i <= items.len(),
            views == expressions_view(items@),
            out@ == printf_items_text(views, i as nat),
        decreases items.len() - i,
    {
        let mut piece = if i == 0 {
            let mut piece: Vec<char> = Vec::new();
            piece.push(' ');
            assert(piece@ =~= seq![' ']);
            piece
        } else {
            chars_of(", ")
        };
        let text = expression_chars(&items[i]);
        push_all(&mut piece, &text);
        push_all(&mut out, &piece);
        i += 1;
    }
    out
}

/// The text of a statement.
pub fn statement_chars(s: &Statement) -> (out: Vec<char>)
    ensures
        out@ == render_statement(s@),
    decreases s, 0int,
{
    match s {
        Statement::Print(items) => {
            let mut out = chars_of("print");
            let text = print_items_chars(items);
            push_all(&mut out, &text);
            out
        },
        Statement::Printf(items) => {
            let mut out = chars_of("printf");
            let text = printf_items_chars(items);
            push_all(&mut out, &text);
            out
        },
        Statement::Gsub { pattern, replacement } => {
            let mut out = chars_of("gsub(");
            let first = expression_chars(pattern);
            push_all(&mut out, &first);
            push_str(&mut out, ", ");
            let second = expression_chars(replacement);
            push_all(&mut out, &second);
            out.push(')');
            assert(out@ =~= "gsub("@ + first@ + ", "@ + second@ + seq![')']);
            out
        },
        Statement::Assignment { identifier, value } => {
            let mut out = chars_of(identifier.as_str());
            push_str(&mut out, " = ");
            let text = expression_chars(value);
            push_all(&mut out, &text);
            out
        },
        Statement::FieldAssignment { field, value } => {
            let mut out: Vec<char> = Vec::new();
            out.push('$');
            let target = wrap_chars(expression_chars(field), !simple(field));
            push_all(&mut out, &target);
            push_str(&mut out, " = ");
            let text = expression_chars(value);
            push_all(&mut out, &text);
            assert(out@ =~= seq!['$'] + target@ + " = "@ + text@);
            out
        },
        Statement::AddAssignment { identifier, value } => {
            let mut out = chars_of(identifier.as_str());
            push_str(&mut out, " += ");
            let text = expression_chars(value);
            push_all(&mut out, &text);
            out
        },
        Statement::PreIncrement { identifier } => {
            let mut out = chars_of("++");
            push_str(&mut out, identifier.as_str());
            out
        },
        Statement::PostIncrement { identifier } => {
            let mut out = chars_of(identifier.as_str());
            push_str(&mut out, "++");
            out
        },
        Statement::If { condition, then_statements } => {
            let mut out = chars_of("if (");
            let text = expression_chars(condition);
            push_all(&mut out, &text);
            push_str(&mut out, ") ");
            let body = block_chars(then_statements);
            push_all(&mut out, &body);
            out
        },
        Statement::While { condition, statements } => {
            let mut out = chars_of("while (");
            let text = expression_chars(condition);
            push_all(&mut out, &text);
            push_str(&mut out, ") ");
            let body = block_chars(statements);
            push_all(&mut out, &body);
            out
        },
        Statement::For { init, condition, update, statements } => {
            let mut out = chars_of("for (");
            let first = statement_chars(init);
            push_all(&mut out, &first);
            push_str(&mut out, "; ");
            let second = expression_chars(condition);
            push_all(&mut out, &second);
            push_str(&mut out, "; ");
            let third = statement_chars(update);
            push_all(&mut out, &third);
            push_str(&mut out, ") ");
            let body = block_chars(statements);
            push_all(&mut out, &body);
            out
        },
        Statement::Exit => chars_of("exit"),
        Statement::ArrayAssignment { identifier, index, value } => {
            let mut out = chars_of(identifier.as_str());
            out.push('[');
            let first = expression_chars(index);
            push_all(&mut out, &first);
            push_str(&mut out, "] = ");
            let second = expression_chars(value);
            push_all(&mut out, &second);
            assert(out@ =~= identifier@ + seq!['['] + first@ + "] = "@ + second@);
            out
        },
        Statement::ArrayAddAssignment { identifier, index, value } => {
            let mut out = chars_of(identifier.as_str());
            out.push('[');
            let first = expression_chars(index);
            push_all(&mut out, &first);
            push_str(&mut out, "] += ");
            let second = expression_chars(value);
            push_all(&mut out, &second);
            assert(out@ =~= identifier@ + seq!['['] + first@ + "] += "@ + second@);
            out
        },
    }
}

/// The text of statements between braces.
pub fn block_chars(ss: &Vec<Statement>) -> (out: Vec<char>)
    ensures
        out@ == block_text(statements_view(*ss)),
    decreases ss, 1int,
{
    let ghost views = statements_view(*ss);
    if ss.len() == 0 {
        return chars_of("{ }");
    }
    let mut inner: Vec<char> = Vec::new();
    let mut i: usize = 0;
    while i < ss.len()
        invariant
            i <= ss.len(),
            views == statements_view(*ss),
            inner@ == statements_text(views.take(i as int)),
        decreases ss.len() - i,
    {
        let text = statement_chars(&ss[i]);
        proof {
            assert(views.take(i + 1).drop_last() =~= views.take(i as int));
            assert(views.take(i + 1).last() == statement_view_at(*ss, i as int));
        }
        if i > 0 {
            push_str(&mut inner, "; ");
            push_all(&mut inner, &text);
        } else {
            push_all(&mut inner, &text);
            assert(inner@ =~= text@);
            assert(views.take(1)[0] == views[0]);
        }
        i += 1;
    }
    assert(views.take(ss.len() as int) =~= views);
    let mut out = chars_of("{ ");
    push_all(&mut out, &inner);
    push_str(&mut out, " }");
    out
}

/// The view of the statement at `i` of `ss`.
pub open spec fn statement_view_at(ss: Vec<Statement>, i: int) -> StatementView {
    statements_view(ss)[i]
}

/// The text of a rule.
pub fn rule_chars(r: &Rule) -> (out: Vec<char>)
    ensures
        out@ == render_rule(r@),
{
    match r {
        Rule::Begin(a) => {
            let mut out = chars_of("BEGIN ");
            let body = block_chars(&a.statements);
            push_all(&mut out, &body);
            out
        },
        Rule::End(a) => {
            let mut out = chars_of("END ");
            let body = block_chars(&a.statements);
            push_all(&mut out, &body);
            out
        },
        Rule::Action(a) => block_chars(&a.statements),
        Rule::PatternAction { pattern: Some(p), action: Some(a) } => {
            let mut out = expression_chars(p);
            out.push(' ');
            let body = block_chars(&a.statements);
            push_all(&mut out, &body);
            out
        },
        Rule::PatternAction { pattern: Some(p), action: None } => expression_chars(p),
        Rule::PatternAction { pattern: None, action: Some(a) } => block_chars(&a.statements),
        Rule::PatternAction { pattern: None, action: None } => Vec::new(),
    }
}

/// `text` with the rules `rs` after it.
fn push_rules(text: Vec<char>, rs: &Vec<Rule>) -> (out: Vec<char>)
    ensures
        out@ == with_rules_text(text@, rules_view(rs@)),
{
    let ghost views = rules_view(rs@);
    let ghost start = text@;
    let mut out = text;
    let mut i: usize = 0;
    while i < rs.len()
        invariant
            i <= rs.len(),
            views == rules_view(rs@),
            out@ == with_rules_text(start, views.take(i as int)),
        decreases rs.len() - i,
    {
        let piece = rule_chars(&rs[i]);
        proof {
            assert(views.take(i + 1).drop_last() =~= views.take(i as int));
            assert(views.take(i + 1).last() == rs@[i as int]@);
        }
        if out.len() == 0 {
            out = piece;
        } else {
            out.push(' ');
            push_all(&mut out, &piece);
        }
        i += 1;
    }
    assert(views.take(rs.len() as int) =~= views);
    out
}

impl Expression {
    /// This expression as a script.
    pub fn to_string(&self) -> (s: String)
        ensures
            s@ == render_expression(self@),
    {
        string_of(&expression_chars(self))
    }
}

impl Statement {
    /// This statement as a script.
    pub fn to_string(&self) -> (s: String)
        ensures
            s@ == render_statement(self@),
    {
        string_of(&statement_chars(self))
    }
}

impl Rule {
    /// This rule as a script.
    pub fn to_string(&self) -> (s: String)
        ensures
            s@ == render_rule(self@),
    {
        string_of(&rule_chars(self))
    }
}

impl Program {
    /// This program as a script.
    pub fn to_string(&self) -> (s: String)
        ensures
            s@ == render_program(self@),
    {
        let text = push_rules(Vec::new(), self.begin_blocks());
        let text = push_rules(text, self.rules());
        let text = push_rules(text, self.end_blocks());
        string_of(&text)
    }
}

} // verus!
