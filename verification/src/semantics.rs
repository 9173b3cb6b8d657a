//! What a program does: the meaning of expressions, statements and rules.
//!
//! A run has an environment: the current record, the number of records
//! read, the separators, the variables, and the lines written so far.
//! Expressions are evaluated in an environment and leave it as it is;
//! statements take an environment to the next. [`eval_lines`] says which
//! lines a program writes for a list of records; the
//! [`crate::Evaluator`] computes exactly these.
//!
//! A loop of the script runs at most `limit` rounds.

use vstd::prelude::*;
use crate::ast::{ActionView, ExpressionView, ProgramView, RuleView, StatementView};
use crate::fields::{fields_of, joined, with_field};
use crate::format::{formatted, tabs_expanded, unescaped};
use crate::matcher::{substituted, text_matches};
use crate::number::{
    spec_less, spec_minus, spec_modulo, spec_over, spec_plus, spec_power, spec_same, spec_times,
    spec_whole_part, Number, SCALE,
};
use crate::render::is_comma_at;
use crate::numeral::{display_text, exact_text, numeric_value, to_number, whole_text};
use crate::text::{text_less, without_line_end};
use crate::token::TokenKind;
use crate::variables::lookup;

verus! {

/// The environment of a run.
pub struct EnvView {
    /// The current record, if there is one.
    pub record: Option<Seq<char>>,
    /// The number of records read so far.
    pub nr: nat,
    /// The name of the input.
    pub filename: Seq<char>,
    /// The separator of the fields of a record.
    pub fs: Seq<char>,
    /// The separator with which fields are joined.
    pub ofs: Seq<char>,
    /// The variables, array elements among them.
    pub variables: Map<Seq<char>, Seq<char>>,
    /// Whether `exit` has been run.
    pub exited: bool,
    /// The lines written so far.
    pub output: Seq<Seq<char>>,
}

/// The environment at the start of a run.
pub open spec fn initial_env(filename: Seq<char>) -> EnvView {
    EnvView {
        record: None,
        nr: 0,
        filename,
        fs: seq![' '],
        ofs: seq![' '],
        variables: Map::empty(),
        exited: false,
        output: Seq::empty(),
    }
}

/// Whether `kind` is an operator of arithmetic.
pub open spec fn is_arithmetic(kind: TokenKind) -> bool {
    kind == TokenKind::Plus || kind == TokenKind::Minus || kind == TokenKind::Asterisk || kind
        == TokenKind::Division || kind == TokenKind::Percent || kind == TokenKind::Caret
}

/// Whether `kind` is an operator of comparison.
pub open spec fn is_comparison(kind: TokenKind) -> bool {
    kind == TokenKind::Equal || kind == TokenKind::NotEqual || kind == TokenKind::GreaterThan
        || kind == TokenKind::GreaterThanOrEqual || kind == TokenKind::LessThan || kind
        == TokenKind::LessThanOrEqual
}

/// The result of the arithmetic operator `kind` on `a` and `b`; of another
/// operator there is none.
pub open spec fn arithmetic(kind: TokenKind, a: Number, b: Number) -> Option<Number> {
    match kind {
        TokenKind::Plus => Some(spec_plus(a, b)),
        TokenKind::Minus => Some(spec_minus(a, b)),
        TokenKind::Asterisk => Some(spec_times(a, b)),
        TokenKind::Division => Some(spec_over(a, b)),
        TokenKind::Percent => Some(spec_modulo(a, b)),
        TokenKind::Caret => Some(spec_power(a, b)),
        _ => None,
    }
}

/// Whether the comparison `kind` holds of the numbers `a` and `b`; of
/// another operator there is no answer.
pub open spec fn compare_numbers(kind: TokenKind, a: Number, b: Number) -> Option<bool> {
    match kind {
        TokenKind::Equal => Some(spec_same(a, b)),
        TokenKind::NotEqual => Some(!spec_same(a, b)),
        TokenKind::GreaterThan => Some(spec_less(b, a)),
        TokenKind::GreaterThanOrEqual => Some(spec_less(b, a) || spec_same(a, b)),
        TokenKind::LessThan => Some(spec_less(a, b)),
        TokenKind::LessThanOrEqual => Some(spec_less(a, b) || spec_same(a, b)),
        _ => None,
    }
}

/// Whether the comparison `kind` holds of the texts `a` and `b`, in the
/// order of the dictionary; of another operator there is no answer.
pub open spec fn compare_texts(kind: TokenKind, a: Seq<char>, b: Seq<char>) -> Option<bool> {
    match kind {
        TokenKind::Equal => Some(a == b),
        TokenKind::NotEqual => Some(a != b),
        TokenKind::GreaterThan => Some(text_less(b, a)),
        TokenKind::GreaterThanOrEqual => Some(!text_less(a, b)),
        TokenKind::LessThan => Some(text_less(a, b)),
        TokenKind::LessThanOrEqual => Some(!text_less(b, a)),
        _ => None,
    }
}

/// Whether the comparison `kind` holds of `a` and `b`: as numbers if both
/// are numerals, else as texts. Of an operator that is no comparison there
/// is no answer.
pub open spec fn compared(kind: TokenKind, a: Seq<char>, b: Seq<char>) -> Option<bool> {
    match (numeric_value(a), numeric_value(b)) {
        (Some(x), Some(y)) => compare_numbers(kind, x, y),
        _ => compare_texts(kind, a, b),
    }
}

/// The text of a truth value: `1` or `0`.
pub open spec fn truth_text(b: bool) -> Seq<char> {
    if b {
        seq!['1']
    } else {
        seq!['0']
    }
}

/// Whether a text counts as true: a numeral if it is not zero, any other
/// text if it is not empty.
pub open spec fn text_truth(t: Seq<char>) -> bool {
    match numeric_value(t) {
        Some(n) => !spec_same(n, Number::Finite(0)),
        None => t.len() > 0,
    }
}

/// The number of fields of the current record; 0 without a record.
pub open spec fn field_count(env: EnvView) -> nat {
    match env.record {
        Some(r) => fields_of(r, env.fs).len(),
        None => 0,
    }
}

/// The value of the variable `name`. `NF`, `NR`, `FNR` and `FILENAME` are
/// read from the environment; a variable that was never set is empty.
pub open spec fn identifier_text(env: EnvView, name: Seq<char>) -> Seq<char> {
    if name == "NF"@ {
        whole_text(field_count(env) as int)
    } else if name == "NR"@ || name == "FNR"@ {
        whole_text(env.nr as int)
    } else if name == "FILENAME"@ {
        env.filename
    } else {
        lookup(env.variables, name)
    }
}

/// The field of number `index`: the whole record for 0, and the empty text
/// where there is no such field, or no record.
pub open spec fn field_text(env: EnvView, index: int) -> Seq<char> {
    match env.record {
        None => Seq::empty(),
        Some(r) => if index == 0 {
            r
        } else if index < 0 || index > fields_of(r, env.fs).len() {
            Seq::empty()
        } else {
            fields_of(r, env.fs)[index - 1]
        },
    }
}

/// The whole number that a number stands for where a count is wanted.
pub open spec fn count_of(n: Number) -> int {
    spec_whole_part(n, i64::MIN as int, i64::MAX as int)
}

/// The part of `source` that starts at the character of number `start`,
/// counted from one, and holds `length` characters, or all the rest.
pub open spec fn substr_text(source: Seq<char>, start: int, length: Option<int>) -> Seq<char> {
    let from = if start <= 1 {
        0
    } else {
        start - 1
    };
    if from >= source.len() {
        Seq::empty()
    } else {
        match length {
            None => source.subrange(from, source.len() as int),
            Some(len) => if len <= 0 {
                Seq::empty()
            } else if from + len >= source.len() {
                source.subrange(from, source.len() as int)
            } else {
                source.subrange(from, from + len)
            },
        }
    }
}

/// The key under which the element `index` of the array `name` is kept
/// among the variables.
pub open spec fn array_key(name: Seq<char>, index: Seq<char>) -> Seq<char> {
    name + seq!['['] + index + seq![']']
}

/// The text that an expression stands for.
pub open spec fn eval_text(env: EnvView, e: ExpressionView) -> Seq<char>
    decreases e, 0int,
{
    match e {
        ExpressionView::Number(n) => display_text(n),
        ExpressionView::String(s) => s,
        ExpressionView::Regex(s) => s,
        ExpressionView::Field(inner) => field_text(env, count_of(eval_number(env, *inner))),
        ExpressionView::Identifier(name) => identifier_text(env, name),
        ExpressionView::ArrayAccess { identifier, index } => lookup(
            env.variables,
            array_key(identifier, eval_text(env, *index)),
        ),
        ExpressionView::Length(None) => whole_text(
            match env.record {
                Some(r) => r.len() as int,
                None => 0,
            },
        ),
        ExpressionView::Length(Some(inner)) => whole_text(eval_text(env, *inner).len() as int),
        ExpressionView::Substr { string, start, length } => substr_text(
            eval_text(env, *string),
            count_of(eval_number(env, *start)),
            match length {
                Some(l) => Some(count_of(eval_number(env, *l))),
                None => None,
            },
        ),
        ExpressionView::Concatenation { left, right } => eval_text(env, *left) + eval_text(
            env,
            *right,
        ),
        ExpressionView::Infix { left, operator, right } => if is_arithmetic(operator) {
            display_text(
                arithmetic(operator, eval_number(env, *left), eval_number(env, *right)).unwrap(),
            )
        } else if is_comparison(operator) {
            truth_text(compared(operator, eval_text(env, *left), eval_text(env, *right)).unwrap())
        } else if operator == TokenKind::And {
            truth_text(eval_condition(env, *left) && eval_condition(env, *right))
        } else if operator == TokenKind::Or {
            truth_text(eval_condition(env, *left) || eval_condition(env, *right))
        } else if operator == TokenKind::Tilde {
            truth_text(text_matches(eval_text(env, *left), eval_text(env, *right)))
        } else if operator == TokenKind::NoMatch {
            truth_text(!text_matches(eval_text(env, *left), eval_text(env, *right)))
        } else {
            eval_text(env, *right)
        },
    }
}

/// The number that an expression stands for: arithmetic is done on numbers,
/// and any other expression gives the number that its text starts with.
pub open spec fn eval_number(env: EnvView, e: ExpressionView) -> Number
    decreases e, 1int,
{
    match e {
        ExpressionView::Number(n) => n,
        ExpressionView::Infix { left, operator, right } => if is_arithmetic(operator) {
            arithmetic(operator, eval_number(env, *left), eval_number(env, *right)).unwrap()
        } else {
            to_number(eval_text(env, e))
        },
        _ => to_number(eval_text(env, e)),
    }
}

/// Whether an expression holds as a condition. A regex literal holds if the
/// record matches it; `&&`, `||`, the match operators and the comparisons
/// are what their names say; arithmetic holds if its result is not zero;
/// and any other expression holds if its text counts as true.
pub open spec fn eval_condition(env: EnvView, e: ExpressionView) -> bool
    decreases e, 2int,
{
    match e {
        ExpressionView::Regex(p) => match env.record {
            Some(r) => text_matches(r, p),
            None => false,
        },
        ExpressionView::Number(n) => !spec_same(n, Number::Finite(0)),
        ExpressionView::Infix { left, operator, right } => if operator == TokenKind::And {
            eval_condition(env, *left) && eval_condition(env, *right)
        } else if operator == TokenKind::Or {
            eval_condition(env, *left) || eval_condition(env, *right)
        } else if operator == TokenKind::Tilde {
            text_matches(eval_text(env, *left), eval_text(env, *right))
        } else if operator == TokenKind::NoMatch {
            !text_matches(eval_text(env, *left), eval_text(env, *right))
        } else if is_comparison(operator) {
            compared(operator, eval_text(env, *left), eval_text(env, *right)).unwrap()
        } else if is_arithmetic(operator) {
            !spec_same(eval_number(env, e), Number::Finite(0))
        } else {
            text_truth(eval_text(env, e))
        },
        _ => text_truth(eval_text(env, e)),
    }
}

/// The environment with one more line written.
pub open spec fn emit(env: EnvView, line: Seq<char>) -> EnvView {
    EnvView { output: env.output.push(line), ..env }
}

/// The environment with `name` bound to `value`. Binding `FS` or `OFS` sets
/// the separator too, to the value with its escapes expanded.
pub open spec fn bound(env: EnvView, name: Seq<char>, value: Seq<char>) -> EnvView {
    EnvView {
        variables: env.variables.insert(name, value),
        fs: if name == "FS"@ {
            unescaped(value)
        } else {
            env.fs
        },
        ofs: if name == "OFS"@ {
            unescaped(value)
        } else {
            env.ofs
        },
        ..env
    }
}

/// The value that the right side `value` of an assignment gives, and the
/// environment after the assignments that it holds: where the value is
/// itself an assignment to a variable, that variable is bound to the same
/// value.
pub open spec fn assigned(env: EnvView, value: ExpressionView) -> (EnvView, Seq<char>)
    decreases value,
{
    match value {
        ExpressionView::Infix { left, operator, right } => if operator == TokenKind::Assign {
            match *left {
                ExpressionView::Identifier(name) => (
                    bound(assigned(env, *right).0, name, assigned(env, *right).1),
                    assigned(env, *right).1,
                ),
                _ => (env, eval_text(env, *right)),
            }
        } else {
            (env, eval_text(env, value))
        },
        _ => (env, eval_text(env, value)),
    }
}

/// What the item at `i` adds to the line of `print`: the output field
/// separator where the item stands for a comma, else the item's text.
pub open spec fn print_part(env: EnvView, items: Seq<ExpressionView>, i: int) -> Seq<char> {
    if is_comma_at(items, i) {
        env.ofs
    } else {
        eval_text(env, items[i])
    }
}

/// What the first `n` items add to the line of `print`, one after the
/// other.
pub open spec fn print_text(env: EnvView, items: Seq<ExpressionView>, n: nat) -> Seq<char>
    decreases n,
{
    if n == 0 {
        Seq::empty()
    } else {
        print_text(env, items, (n - 1) as nat) + print_part(env, items, n - 1)
    }
}

/// The line that `print` writes: the record if there are no items, else the
/// texts of the items, one after the other, with the output field separator
/// where a comma stood between two of them.
pub open spec fn print_line(env: EnvView, items: Seq<ExpressionView>) -> Seq<char> {
    if items.len() == 0 {
        match env.record {
            Some(r) => r,
            None => Seq::empty(),
        }
    } else {
        print_text(env, items, items.len())
    }
}

/// The texts of the items after the first.
pub open spec fn printf_arguments(env: EnvView, items: Seq<ExpressionView>) -> Seq<Seq<char>> {
    Seq::new((items.len() - 1) as nat, |i: int| eval_text(env, items[i + 1]))
}

/// The line that `printf` writes: the format with its escapes expanded,
/// applied to the arguments, with tabs expanded to tab stops four columns
/// apart and without the line end.
pub open spec fn printf_line(env: EnvView, items: Seq<ExpressionView>) -> Seq<char> {
    if items.len() == 0 {
        Seq::empty()
    } else {
        without_line_end(
            tabs_expanded(
                formatted(unescaped(eval_text(env, items[0])), printf_arguments(env, items)),
                4,
            ),
        )
    }
}

/// The environment with the variable `key` raised by `by`.
pub open spec fn raised(env: EnvView, key: Seq<char>, current: Seq<char>, by: Number) -> EnvView {
    EnvView {
        variables: env.variables.insert(key, exact_text(spec_plus(to_number(current), by))),
        ..env
    }
}

/// The environment after a statement that is no `if` and no loop. An
/// assignment to a field rebuilds the record from its fields, joined by the
/// output field separator; it does nothing without a record, for a field
/// number below one, or for one that the machine cannot count to.
pub open spec fn simple_step(env: EnvView, s: StatementView) -> EnvView {
    match s {
        StatementView::Print(items) => emit(env, print_line(env, items)),
        StatementView::Printf(items) => emit(env, printf_line(env, items)),
        StatementView::Gsub { pattern, replacement } => match env.record {
            None => env,
            Some(r) => EnvView {
                record: Some(
                    substituted(r, eval_text(env, pattern), unescaped(eval_text(env, replacement))),
                ),
                ..env
            },
        },
        StatementView::Assignment { identifier, value } => bound(
            assigned(env, value).0,
            identifier,
            assigned(env, value).1,
        ),
        StatementView::FieldAssignment { field, value } => match env.record {
            None => env,
            Some(r) => if count_of(eval_number(env, field)) <= 0 || count_of(
                eval_number(env, field),
            ) > usize::MAX {
                env
            } else {
                EnvView {
                    record: Some(
                        joined(
                            with_field(
                                fields_of(r, env.fs),
                                count_of(eval_number(env, field)),
                                eval_text(env, value),
                            ),
                            env.ofs,
                        ),
                    ),
                    ..env
                }
            },
        },
        StatementView::AddAssignment { identifier, value } => raised(
            env,
            identifier,
            identifier_text(env, identifier),
            eval_number(env, value),
        ),
        StatementView::PreIncrement { identifier } => raised(
            env,
            identifier,
            identifier_text(env, identifier),
            Number::Finite(SCALE),
        ),
        StatementView::PostIncrement { identifier } => raised(
            env,
            identifier,
            identifier_text(env, identifier),
            Number::Finite(SCALE),
        ),
        StatementView::Exit => EnvView { exited: true, ..env },
        StatementView::ArrayAssignment { identifier, index, value } => EnvView {
            variables: env.variables.insert(
                array_key(identifier, eval_text(env, index)),
                eval_text(env, value),
            ),
            ..env
        },
        StatementView::ArrayAddAssignment { identifier, index, value } => raised(
            env,
            array_key(identifier, eval_text(env, index)),
            lookup(env.variables, array_key(identifier, eval_text(env, index))),
            eval_number(env, value),
        ),
        _ => env,
    }
}

/// The environment after the statement `s`. After `exit` a statement does
/// nothing.
pub open spec fn exec_statement(env: EnvView, s: StatementView, limit: nat) -> EnvView
    decreases s, 2int, 0nat,
{
    if env.exited {
        env
    } else {
        match s {
            StatementView::If { condition, then_statements } => if eval_condition(env, condition) {
                exec_block(env, then_statements, limit)
            } else {
                env
            },
            StatementView::While { condition, statements } => while_rounds(env, s, limit, limit),
            StatementView::For { init, condition, update, statements } => for_rounds(
                exec_statement(env, *init, limit),
                s,
                limit,
                limit,
            ),
            _ => simple_step(env, s),
        }
    }
}

/// The environment after at most `rounds` rounds of the `while` loop `s`:
/// a round runs the body, and it is run while the condition holds.
pub open spec fn while_rounds(env: EnvView, s: StatementView, limit: nat, rounds: nat) -> EnvView
    decreases s, 1int, rounds,
{
    match s {
        StatementView::While { condition, statements } => if rounds == 0 || env.exited
            || !eval_condition(env, condition) {
            env
        } else {
            while_rounds(exec_block(env, statements, limit), s, limit, (rounds - 1) as nat)
        },
        _ => env,
    }
}

/// The environment after at most `rounds` rounds of the `for` loop `s`,
/// whose first clause has been run: a round runs the body and then the
/// third clause, and it is run while the condition holds.
pub open spec fn for_rounds(env: EnvView, s: StatementView, limit: nat, rounds: nat) -> EnvView
    decreases s, 1int, rounds,
{
    match s {
        StatementView::For { init, condition, update, statements } => if rounds == 0 || env.exited
            || !eval_condition(env, condition) {
            env
        } else {
            for_rounds(
                exec_statement(exec_block(env, statements, limit), *update, limit),
                s,
                limit,
                (rounds - 1) as nat,
            )
        },
        _ => env,
    }
}

/// The environment after the statements `ss`, run in order.
pub open spec fn exec_block(env: EnvView, ss: Seq<StatementView>, limit: nat) -> EnvView
    decreases ss, 0int, 0nat,
{
    if ss.len() == 0 {
        env
    } else {
        exec_statement(exec_block(env, ss.drop_last(), limit), ss.last(), limit)
    }
}

/// One step of a range pattern. `active` says whether a range is open,
/// `starts` and `ends` whether the record matches the first and the second
/// pattern. The result says whether the record is selected, and whether a
/// range is open after it.
pub open spec fn range_step(active: bool, starts: bool, ends: bool) -> (bool, bool) {
    if !active && !starts {
        (false, false)
    } else {
        (true, !ends)
    }
}

/// Whether the pattern selects the current record, and whether its range is
/// open afterwards.
pub open spec fn pattern_selects(env: EnvView, pattern: ExpressionView, active: bool) -> (
    bool,
    bool,
) {
    match pattern {
        ExpressionView::Infix { left, operator, right } => if operator == TokenKind::Comma {
            range_step(active, eval_condition(env, *left), eval_condition(env, *right))
        } else {
            (eval_condition(env, pattern), active)
        },
        _ => (eval_condition(env, pattern), active),
    }
}

/// The environment after the rule `rule` has seen the current record, whose
/// text as it was read is `raw`; and whether the rule's range is open
/// afterwards. A pattern without an action writes the record as it was
/// read.
pub open spec fn rule_step(env: EnvView, rule: RuleView, active: bool, raw: Seq<char>, limit: nat)
    -> (EnvView, bool) {
    if env.exited {
        (env, active)
    } else {
        match rule {
            RuleView::Action(a) => (exec_block(env, a.statements, limit), active),
            RuleView::PatternAction { pattern, action } => {
                let selects = match pattern {
                    Some(p) => pattern_selects(env, p, active),
                    None => (true, active),
                };
                if selects.0 {
                    match action {
                        Some(a) => (exec_block(env, a.statements, limit), selects.1),
                        None => (emit(env, raw), selects.1),
                    }
                } else {
                    (env, selects.1)
                }
            },
            _ => (env, active),
        }
    }
}

/// The environment after the first `n` rules have seen the current record,
/// in order, and which ranges are open afterwards.
pub open spec fn rules_step(
    env: EnvView,
    rules: Seq<RuleView>,
    ranges: Seq<bool>,
    raw: Seq<char>,
    limit: nat,
    n: nat,
) -> (EnvView, Seq<bool>)
    decreases n,
{
    if n == 0 {
        (env, ranges)
    } else {
        let before = rules_step(env, rules, ranges, raw, limit, (n - 1) as nat);
        let after = rule_step(before.0, rules[n - 1], before.1[n - 1], raw, limit);
        (after.0, before.1.update(n - 1, after.1))
    }
}

/// The environment in which the rules see the record of number `index`,
/// counted from zero.
pub open spec fn at_record(env: EnvView, record: Seq<char>, index: nat) -> EnvView {
    EnvView { record: Some(record), nr: index + 1, ..env }
}

/// The environment after the first `n` records, and which ranges are open
/// afterwards. Every rule sees a record before any rule sees the next one.
/// After `exit` no record is read.
pub open spec fn records_run(
    env: EnvView,
    rules: Seq<RuleView>,
    ranges: Seq<bool>,
    records: Seq<Seq<char>>,
    limit: nat,
    n: nat,
) -> (EnvView, Seq<bool>)
    decreases n,
{
    if n == 0 {
        (env, ranges)
    } else {
        let before = records_run(env, rules, ranges, records, limit, (n - 1) as nat);
        if before.0.exited {
            before
        } else {
            rules_step(
                at_record(before.0, records[n - 1], (n - 1) as nat),
                rules,
                before.1,
                records[n - 1],
                limit,
                rules.len(),
            )
        }
    }
}

/// The environment after the first `n` of the blocks `blocks`: the `BEGIN`
/// blocks among them if `begin`, else the `END` blocks.
pub open spec fn blocks_run(env: EnvView, blocks: Seq<RuleView>, begin: bool, limit: nat, n: nat)
    -> EnvView
    decreases n,
{
    if n == 0 {
        env
    } else {
        let before = blocks_run(env, blocks, begin, limit, (n - 1) as nat);
        match blocks[n - 1] {
            RuleView::Begin(a) => if begin {
                exec_block(before, a.statements, limit)
            } else {
                before
            },
            RuleView::End(a) => if begin {
                before
            } else {
                exec_block(before, a.statements, limit)
            },
            _ => before,
        }
    }
}

/// No range is open.
pub open spec fn closed_ranges(count: nat) -> Seq<bool> {
    Seq::new(count, |i: int| false)
}

/// The environment in which the `END` blocks run: there is no record, the
/// number of records is that of all the records, and `exit` is forgotten.
pub open spec fn at_end(env: EnvView, count: nat) -> EnvView {
    EnvView { record: None, nr: count, exited: false, ..env }
}

/// The lines that `program` writes for `records`: first the `BEGIN` blocks
/// run, then the rules see the records, then the `END` blocks run.
pub open spec fn eval_lines(
    program: ProgramView,
    records: Seq<Seq<char>>,
    filename: Seq<char>,
    limit: nat,
) -> Seq<Seq<char>> {
    let begun = blocks_run(
        initial_env(filename),
        program.begin_blocks,
        true,
        limit,
        program.begin_blocks.len(),
    );
    let read = records_run(
        begun,
        program.rules,
        closed_ranges(program.rules.len()),
        records,
        limit,
        records.len(),
    ).0;
    blocks_run(
        at_end(read, records.len()),
        program.end_blocks,
        false,
        limit,
        program.end_blocks.len(),
    ).output
}

/// Whether the range of a range pattern is open before the record of number
/// `n`, given for each record whether it matches the first pattern
/// (`starts`) and the second (`ends`).
pub open spec fn range_open_before(starts: Seq<bool>, ends: Seq<bool>, n: nat) -> bool
    decreases n,
{
    if n == 0 {
        false
    } else {
        range_step(range_open_before(starts, ends, (n - 1) as nat), starts[n - 1], ends[n - 1]).1
    }
}

/// Whether a range pattern selects the record of number `n`.
pub open spec fn range_selects(starts: Seq<bool>, ends: Seq<bool>, n: nat) -> bool {
    range_step(range_open_before(starts, ends, n), starts[n as int], ends[n as int]).0
}

/// With no record, a program writes what its `BEGIN` blocks and then its
/// `END` blocks write, whatever its rules are.
pub proof fn law_no_records(program: ProgramView, rules: Seq<RuleView>, filename: Seq<char>, limit: nat)
    ensures
        eval_lines(program, Seq::empty(), filename, limit) == blocks_run(
            at_end(
                blocks_run(
                    initial_env(filename),
                    program.begin_blocks,
                    true,
                    limit,
                    program.begin_blocks.len(),
                ),
                0,
            ),
            program.end_blocks,
            false,
            limit,
            program.end_blocks.len(),
        ).output,
        eval_lines(ProgramView { rules, ..program }, Seq::empty(), filename, limit) == eval_lines(
            program,
            Seq::empty(),
            filename,
            limit,
        ),
{
}

/// A range pattern selects every record from one that matches its first
/// pattern while no range is open, through the first record from there on
/// that matches its second pattern, and no range is open after that
/// record.
pub proof fn law_range_through(starts: Seq<bool>, ends: Seq<bool>, first: nat, last: nat, m: nat)
    requires
        starts.len() == ends.len(),
        first <= m <= last < starts.len(),
        !range_open_before(starts, ends, first),
        starts[first as int],
        forall|k: int| first <= k < last ==> !ends[k],
        ends[last as int],
    ensures
        range_selects(starts, ends, m),
        m < last ==> range_open_before(starts, ends, m + 1),
        !range_open_before(starts, ends, last + 1),
    decreases m - first,
{
    if m > first {
        law_range_through(starts, ends, first, last, (m - 1) as nat);
    }
    law_range_last(starts, ends, first, last, last);
}

/// The state of a range at the record `m` of a span as in
/// [`law_range_through`].
proof fn law_range_last(starts: Seq<bool>, ends: Seq<bool>, first: nat, last: nat, m: nat)
    requires
        starts.len() == ends.len(),
        first <= m <= last < starts.len(),
        !range_open_before(starts, ends, first),
        starts[first as int],
        forall|k: int| first <= k < last ==> !ends[k],
        ends[last as int],
    ensures
        range_open_before(starts, ends, m + 1) == (m < last),
    decreases m - first,
{
    if m > first {
        law_range_last(starts, ends, first, last, (m - 1) as nat);
    }
}

/// While no range is open and no record matches its first pattern, a range
/// pattern selects no record, and no range opens.
pub proof fn law_range_idle(starts: Seq<bool>, ends: Seq<bool>, first: nat, m: nat)
    requires
        starts.len() == ends.len(),
        first <= m < starts.len(),
        !range_open_before(starts, ends, first),
        forall|k: int| first <= k <= m ==> !starts[k],
    ensures
        !range_selects(starts, ends, m),
        !range_open_before(starts, ends, m + 1),
    decreases m - first,
{
    if m > first {
        law_range_idle(starts, ends, first, (m - 1) as nat);
    }
}

/// A range pattern selects the record if its range is open or the record
/// matches its first pattern, and its range is open afterwards if the
/// record is selected and does not match its second pattern. Any other
/// pattern selects the record if it holds as a condition, and leaves the
/// range as it is.
pub proof fn law_range_pattern(env: EnvView, pattern: ExpressionView, active: bool)
    ensures
        match pattern {
            ExpressionView::Infix { left, operator: TokenKind::Comma, right } => {
                let selected = active || eval_condition(env, *left);
                pattern_selects(env, pattern, active) == (
                    selected,
                    selected && !eval_condition(env, *right),
                )
            },
            _ => pattern_selects(env, pattern, active) == (eval_condition(env, pattern), active),
        },
{
}

/// The program whose one rule is the range pattern from the regex literal
/// `first` to the regex literal `second`, without an action.
pub open spec fn range_program(first: Seq<char>, second: Seq<char>) -> ProgramView {
    ProgramView {
        begin_blocks: Seq::empty(),
        rules: seq![
            RuleView::PatternAction {
                pattern: Some(
                    ExpressionView::Infix {
                        left: Box::new(ExpressionView::Regex(first)),
                        operator: TokenKind::Comma,
                        right: Box::new(ExpressionView::Regex(second)),
                    },
                ),
                action: None,
            },
        ],
        end_blocks: Seq::empty(),
    }
}

/// For each of the records, whether it matches `pattern`.
pub open spec fn matching(records: Seq<Seq<char>>, pattern: Seq<char>) -> Seq<bool> {
    Seq::new(records.len(), |i: int| text_matches(records[i], pattern))
}

/// Those of the first `n` records that a range pattern selects, in their
/// order.
pub open spec fn range_lines(records: Seq<Seq<char>>, starts: Seq<bool>, ends: Seq<bool>, n: nat)
    -> Seq<Seq<char>>
    decreases n,
{
    if n == 0 {
        Seq::empty()
    } else if range_selects(starts, ends, (n - 1) as nat) {
        range_lines(records, starts, ends, (n - 1) as nat).push(records[n - 1])
    } else {
        range_lines(records, starts, ends, (n - 1) as nat)
    }
}

/// The run of a range program over the first `n` records: it has written
/// the records that the range selects, and its range is open as
/// [`range_open_before`] says.
proof fn lemma_range_run(
    first: Seq<char>,
    second: Seq<char>,
    records: Seq<Seq<char>>,
    filename: Seq<char>,
    limit: nat,
    n: nat,
)
    requires
        n <= records.len(),
    ensures
        ({
            let run = records_run(
                initial_env(filename),
                range_program(first, second).rules,
                closed_ranges(1),
                records,
                limit,
                n,
            );
            &&& !run.0.exited
            &&& run.0.output == range_lines(
                records,
                matching(records, first),
                matching(records, second),
                n,
            )
            &&& run.1 =~= seq![
                range_open_before(matching(records, first), matching(records, second), n),
            ]
        }),
    decreases n,
{
    let rules = range_program(first, second).rules;
    let start = initial_env(filename);
    if n == 0 {
        assert(closed_ranges(1) =~= seq![false]);
    } else {
        lemma_range_run(first, second, records, filename, limit, (n - 1) as nat);
        let before = records_run(start, rules, closed_ranges(1), records, limit, (n - 1) as nat);
        let env = at_record(before.0, records[n - 1], (n - 1) as nat);
        let raw = records[n - 1];
        assert(rules.len() == 1);
        assert(rules_step(env, rules, before.1, raw, limit, 0) == (env, before.1));
        let after = rule_step(env, rules[0], before.1[0], raw, limit);
        assert(rules_step(env, rules, before.1, raw, limit, 1) == (
            after.0,
            before.1.update(0, after.1),
        ));
        assert(before.1.update(0, after.1) =~= seq![after.1]);
        assert(eval_condition(env, ExpressionView::Regex(first)) == text_matches(raw, first));
        assert(eval_condition(env, ExpressionView::Regex(second)) == text_matches(raw, second));
    }
}

/// A program that is one range pattern writes the records from each one
/// that matches the first pattern while no range is open, through the next
/// one that matches the second pattern, and no others: its lines are the
/// records that [`range_selects`] holds of, in their order.
pub proof fn law_range_lines(
    first: Seq<char>,
    second: Seq<char>,
    records: Seq<Seq<char>>,
    filename: Seq<char>,
    limit: nat,
)
    ensures
        eval_lines(range_program(first, second), records, filename, limit) == range_lines(
            records,
            matching(records, first),
            matching(records, second),
            records.len(),
        ),
{
    lemma_range_run(first, second, records, filename, limit, records.len());
    assert(closed_ranges(1) =~= closed_ranges(range_program(first, second).rules.len()));
}

/// The program `{ print }`: one rule, whose action writes the record.
pub open spec fn print_program() -> ProgramView {
    ProgramView {
        begin_blocks: Seq::empty(),
        rules: seq![
            RuleView::Action(ActionView { statements: seq![StatementView::Print(Seq::empty())] }),
        ],
        end_blocks: Seq::empty(),
    }
}

/// After the first `n` records the program `{ print }` has written them.
proof fn lemma_print_run(records: Seq<Seq<char>>, filename: Seq<char>, limit: nat, n: nat)
    requires
        n <= records.len(),
    ensures
        ({
            let run = records_run(
                initial_env(filename),
                print_program().rules,
                closed_ranges(1),
                records,
                limit,
                n,
            );
            &&& !run.0.exited
            &&& run.0.output == records.take(n as int)
        }),
    decreases n,
{
    let rules = print_program().rules;
    let start = initial_env(filename);
    if n == 0 {
        assert(records.take(0) =~= Seq::<Seq<char>>::empty());
    } else {
        lemma_print_run(records, filename, limit, (n - 1) as nat);
        let before = records_run(start, rules, closed_ranges(1), records, limit, (n - 1) as nat);
        let raw = records[n - 1];
        let env = at_record(before.0, raw, (n - 1) as nat);
        let ss = seq![StatementView::Print(Seq::empty())];
        assert(rules.len() == 1);
        assert(rules_step(env, rules, before.1, raw, limit, 0) == (env, before.1));
        assert(ss.drop_last() =~= Seq::<StatementView>::empty());
        assert(exec_block(env, ss.drop_last(), limit) == env);
        assert(exec_block(env, ss, limit) == exec_statement(env, ss.last(), limit));
        assert(exec_block(env, ss, limit) == emit(env, raw));
        assert(records.take(n as int) =~= records.take(n - 1).push(raw));
    }
}

/// The program `{ print }` writes the records as they are, in their order.
pub proof fn law_print_identity(records: Seq<Seq<char>>, filename: Seq<char>, limit: nat)
    ensures
        eval_lines(print_program(), records, filename, limit) == records,
{
    lemma_print_run(records, filename, limit, records.len());
    assert(closed_ranges(1) =~= closed_ranges(print_program().rules.len()));
    assert(records.take(records.len() as int) =~= records);
}

} // verus!
