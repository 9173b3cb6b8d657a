//! The evaluator: runs a program against records.
//!
//! The [`Evaluator`] holds a program and the records it is to see, and
//! [`Evaluator::eval`] returns the lines that the program writes for them:
//! those that [`crate::semantics::eval_lines`] names.

use vstd::prelude::*;
use crate::ast::{
    expressions_view, rules_view, statements_view, Expression, ExpressionView, Program, Rule,
    Statement,
};
use crate::fields::{fields_of, join_fields, set_field, split_fields};
use crate::grammar::separator;
use crate::format::{expand_tabs, format_printf, unescape_awk_string};
use crate::matcher::{awk_gsub_replace_all, awk_regex_matches};
use crate::number::{Number, SCALE};
use crate::numeral::push_whole;
use crate::semantics::{arithmetic, array_key, assigned, at_end, at_record, blocks_run, bound, closed_ranges, compared, emit, eval_condition, eval_lines, eval_number, eval_text, exec_block, exec_statement, field_count, field_text, for_rounds, identifier_text, initial_env, is_arithmetic, is_comparison, pattern_selects, print_line, print_text, printf_arguments, printf_line, raised, records_run, rule_step, rules_step, simple_step, substr_text, text_truth, truth_text, while_rounds, EnvView};
use crate::text::{
    chars_are, chars_less, chars_of, copy_chars, push_all, same_chars, slice_chars, string_of,
    string_texts, texts, trim_line_end,
};
use crate::token::TokenKind;
use crate::variables::Variables;

verus! {

/// The environment of a run.
pub struct Environment {
    record: Option<Vec<char>>,
    nr: usize,
    filename: Vec<char>,
    fs: Vec<char>,
    ofs: Vec<char>,
    variables: Variables,
    exited: bool,
    output: Vec<Vec<char>>,
}

impl View for Environment {
    type V = EnvView;

    closed spec fn view(&self) -> EnvView {
        EnvView {
            record: match self.record {
                Some(r) => Some(r@),
                None => None,
            },
            nr: self.nr as nat,
            filename: self.filename@,
            fs: self.fs@,
            ofs: self.ofs@,
            variables: self.variables@,
            exited: self.exited,
            output: texts(self.output@),
        }
    }
}

/// Whether `kind` is an operator of arithmetic.
fn arithmetic_operator(kind: TokenKind) -> (r: bool)
    ensures
        r == is_arithmetic(kind),
{
    match kind {
        TokenKind::Plus
        | TokenKind::Minus
        | TokenKind::Asterisk
        | TokenKind::Division
        | TokenKind::Percent
        | TokenKind::Caret => true,
        _ => false,
    }
}

/// Whether `kind` is an operator of comparison.
fn comparison_operator(kind: TokenKind) -> (r: bool)
    ensures
        r == is_comparison(kind),
{
    match kind {
        TokenKind::Equal
        | TokenKind::NotEqual
        | TokenKind::GreaterThan
        | TokenKind::GreaterThanOrEqual
        | TokenKind::LessThan
        | TokenKind::LessThanOrEqual => true,
        _ => false,
    }
}

/// The result of the arithmetic operator `kind` on `a` and `b`; nothing for
/// an operator that is not one of arithmetic.
pub fn eval_numeric_infix(kind: TokenKind, a: Number, b: Number) -> (r: Option<Number>)
    ensures
        r is None <==> !is_arithmetic(kind),
        r == arithmetic(kind, a, b),
{
    match kind {
        TokenKind::Plus => Some(a.plus(b)),
        TokenKind::Minus => Some(a.minus(b)),
        TokenKind::Asterisk => Some(a.times(b)),
        TokenKind::Division => Some(a.over(b)),
        TokenKind::Percent => Some(a.modulo(b)),
        TokenKind::Caret => Some(a.power(b)),
        _ => None,
    }
}

/// Whether the comparison `kind` holds of `a` and `b`: as numbers if both
/// are numerals, else as texts. Nothing for an operator that is no
/// comparison.
pub fn eval_comparison(kind: TokenKind, a: &Vec<char>, b: &Vec<char>) -> (r: Option<bool>)
    ensures
        r is None <==> !is_comparison(kind),
        r == compared(kind, a@, b@),
{
    if !comparison_operator(kind) {
        return None;
    }
    match (Number::parse_chars(a), Number::parse_chars(b)) {
        (Some(x), Some(y)) => match kind {
            TokenKind::Equal => Some(x.same(y)),
            TokenKind::NotEqual => Some(!x.same(y)),
            TokenKind::GreaterThan => Some(y.less(x)),
            TokenKind::GreaterThanOrEqual => Some(y.less(x) || x.same(y)),
            TokenKind::LessThan => Some(x.less(y)),
            _ => Some(x.less(y) || x.same(y)),
        },
        _ => match kind {
            TokenKind::Equal => Some(same_chars(a, b)),
            TokenKind::NotEqual => Some(!same_chars(a, b)),
            TokenKind::GreaterThan => Some(chars_less(b, a)),
            TokenKind::GreaterThanOrEqual => Some(!chars_less(a, b)),
            TokenKind::LessThan => Some(chars_less(a, b)),
            _ => Some(!chars_less(b, a)),
        },
    }
}

/// Whether an argument of `print` is the single space that a comma leaves.
fn stands_for_comma(expression: &Expression) -> (r: bool)
    ensures
        r == (expression@ == separator()),
{
    match expression {
        Expression::String(s) => {
            let text = chars_of(s.as_str());
            proof {
                if text.len() == 1 && text[0] == ' ' {
                    assert(text@ =~= seq![' ']);
                }
                assert(seq![' '].len() == 1 && seq![' '][0] == ' ');
            }
            text.len() == 1 && text[0] == ' '
        },
        _ => false,
    }
}

/// The text of a truth value.
fn truth_chars(b: bool) -> (out: Vec<char>)
    ensures
        out@ == truth_text(b),
{
    let mut out: Vec<char> = Vec::new();
    if b {
        out.push('1');
    } else {
        out.push('0');
    }
    assert(out@ =~= truth_text(b));
    out
}

/// Whether a text counts as true.
fn truth_of(t: &Vec<char>) -> (r: bool)
    ensures
        r == text_truth(t@),
{
    match Number::parse_chars(t) {
        Some(n) => !n.same(Number::Finite(0)),
        None => t.len() > 0,
    }
}

/// The count `n` in decimal.
fn count_chars(n: usize) -> (out: Vec<char>)
    ensures
        out@ == crate::numeral::whole_text(n as int),
{
    let mut out: Vec<char> = Vec::new();
    push_whole(&mut out, n as i128);
    assert(out@ =~= crate::numeral::whole_text(n as int));
    out
}

/// The part of `source` that starts at the character of number `start` and
/// holds `length` characters, or all the rest.
pub fn eval_substr_expression(source: &Vec<char>, start: i64, length: Option<i64>) -> (out: Vec<
    char,
>)
    ensures
        out@ == substr_text(
            source@,
            start as int,
            match length {
                Some(l) => Some(l as int),
                None => None,
            },
        ),
{
    let n = source.len();
    let from: u64 = if start <= 1 {
        0
    } else {
        (start - 1) as u64
    };
    if from >= n as u64 {
        return Vec::new();
    }
    let from: usize = from as usize;
    match length {
        None => slice_chars(source, from, n),
        Some(len) => {
            if len <= 0 {
                Vec::new()
            } else if len as u64 >= (n - from) as u64 {
                slice_chars(source, from, n)
            } else {
                slice_chars(source, from, from + len as usize)
            }
        },
    }
}

/// The key under which the element `index` of the array `name` is kept.
fn array_key_chars(name: &String, index: &Vec<char>) -> (key: Vec<char>)
    ensures
        key@ == array_key(name@, index@),
{
    let mut key = chars_of(name.as_str());
    key.push('[');
    push_all(&mut key, index);
    key.push(']');
    key
}

/// The variable and the right side of `value`, if `value` is an assignment
/// to a variable.
fn assignment_target(value: &Expression) -> (r: Option<(&String, &Expression)>)
    ensures
        match r {
            Some((name, right)) => value@ == (ExpressionView::Infix {
                left: Box::new(ExpressionView::Identifier(name@)),
                operator: TokenKind::Assign,
                right: Box::new(right@),
            }) && decreases_to!(value => right),
            None => !(value@ is Infix && value@->Infix_operator == TokenKind::Assign
                && *value@->Infix_left is Identifier),
        },
{
    match value {
        Expression::Infix { left, operator, right } => {
            if operator.kind == TokenKind::Assign {
                match &**left {
                    Expression::Identifier(name) => {
                        assert(crate::ast::expression_view(**left) == ExpressionView::Identifier(
                            name@,
                        ));
                        Some((name, &**right))
                    },
                    _ => None,
                }
            } else {
                None
            }
        },
        _ => None,
    }
}

/// The expression that gives the value of `value`: its right side if it is
/// an assignment, else `value` itself.
fn assignment_source(value: &Expression) -> (r: &Expression)
    ensures
        r@ == (match value@ {
            ExpressionView::Infix { left, operator, right } => if operator == TokenKind::Assign {
                *right
            } else {
                value@
            },
            _ => value@,
        }),
{
    match value {
        Expression::Infix { left, operator, right } => {
            if operator.kind == TokenKind::Assign {
                &**right
            } else {
                value
            }
        },
        _ => value,
    }
}

impl Environment {
    /// Whether the environment is in order.
    pub closed spec fn wf(&self) -> bool {
        self.variables.wf()
    }

    /// The environment at the start of a run.
    pub fn new(filename: &str) -> (env: Environment)
        ensures
            env.wf(),
            env@ == initial_env(filename@),
    {
        let mut space: Vec<char> = Vec::new();
        space.push(' ');
        assert(space@ =~= seq![' ']);
        let env = Environment {
            record: None,
            nr: 0,
            filename: chars_of(filename),
            fs: copy_chars(&space),
            ofs: space,
            variables: Variables::new(),
            exited: false,
            output: Vec::new(),
        };
        assert(texts(env.output@) =~= Seq::empty());
        env
    }

    /// The fields of the current record; none without a record.
    fn split_fields(&self) -> (fields: Vec<Vec<char>>)
        ensures
            match self@.record {
                Some(r) => texts(fields@) == fields_of(r, self@.fs),
                None => fields@.len() == 0,
            },
            fields@.len() == field_count(self@),
    {
        match &self.record {
            Some(r) => {
                let fields = split_fields(r, &self.fs);
                assert(texts(fields@).len() == fields@.len());
                fields
            },
            None => Vec::new(),
        }
    }

    /// The value of the variable `name`.
    fn eval_identifier_expression(&self, name: &Vec<char>) -> (out: Vec<char>)
        requires
            self.wf(),
        ensures
            out@ == identifier_text(self@, name@),
    {
        if chars_are(name, "NF") {
            count_chars(self.split_fields().len())
        } else if chars_are(name, "NR") || chars_are(name, "FNR") {
            count_chars(self.nr)
        } else if chars_are(name, "FILENAME") {
            copy_chars(&self.filename)
        } else {
            self.variables.get(name)
        }
    }

    /// The field of number `index`.
    fn eval_field_expression(&self, index: i64) -> (out: Vec<char>)
        ensures
            out@ == field_text(self@, index as int),
    {
        match &self.record {
            None => Vec::new(),
            Some(r) => {
                if index == 0 {
                    copy_chars(r)
                } else if index < 0 {
                    Vec::new()
                } else {
                    let fields = split_fields(r, &self.fs);
                    assert(texts(fields@).len() == fields@.len());
                    if index as u64 > fields.len() as u64 {
                        Vec::new()
                    } else {
                        let at = (index - 1) as usize;
                        assert(texts(fields@)[at as int] == fields@[at as int]@);
                        copy_chars(&fields[at])
                    }
                }
            },
        }
    }

    /// The length of the current record in characters; 0 without a record.
    fn eval_length_expression(&self) -> (out: Vec<char>)
        ensures
            out@ == crate::numeral::whole_text(
                match self@.record {
                    Some(r) => r.len() as int,
                    None => 0,
                },
            ),
    {
        match &self.record {
            Some(r) => count_chars(r.len()),
            None => count_chars(0),
        }
    }

    /// The text that an expression stands for.
    pub fn eval_expression(&self, expression: &Expression) -> (out: Vec<char>)
        requires
            self.wf(),
        ensures
            out@ == eval_text(self@, expression@),
        decreases expression, 0int,
    {
        match expression {
            Expression::Number(n) => n.display_chars(),
            Expression::String(s) => chars_of(s.as_str()),
            Expression::Regex(s) => chars_of(s.as_str()),
            Expression::Field(inner) => {
                let index = self.eval_numeric_expression(inner).whole_part(i64::MIN, i64::MAX);
                self.eval_field_expression(index)
            },
            Expression::Identifier(name) => {
                let name = chars_of(name.as_str());
                self.eval_identifier_expression(&name)
            },
            Expression::ArrayAccess { identifier, index } => {
                let index = self.eval_expression(index);
                let key = array_key_chars(identifier, &index);
                self.variables.get(&key)
            },
            Expression::Length(None) => self.eval_length_expression(),
            Expression::Length(Some(inner)) => {
                let text = self.eval_expression(inner);
                count_chars(text.len())
            },
            Expression::Substr { string, start, length } => {
                let source = self.eval_expression(string);
                let start = self.eval_numeric_expression(start).whole_part(i64::MIN, i64::MAX);
                let length = match length {
                    Some(l) => Some(self.eval_numeric_expression(l).whole_part(i64::MIN, i64::MAX)),
                    None => None,
                };
                eval_substr_expression(&source, start, length)
            },
            Expression::Concatenation { left, right } => {
                let mut value = self.eval_expression(left);
                let more = self.eval_expression(right);
                push_all(&mut value, &more);
                value
            },
            Expression::Infix { left, operator, right } => {
                let kind = operator.kind;
                if arithmetic_operator(kind) {
                    let a = self.eval_numeric_expression(left);
                    let b = self.eval_numeric_expression(right);
                    eval_numeric_infix(kind, a, b).unwrap().display_chars()
                } else if comparison_operator(kind) {
                    let a = self.eval_expression(left);
                    let b = self.eval_expression(right);
                    truth_chars(eval_comparison(kind, &a, &b).unwrap())
                } else if kind == TokenKind::And {
                    truth_chars(self.eval_condition(left) && self.eval_condition(right))
                } else if kind == TokenKind::Or {
                    truth_chars(self.eval_condition(left) || self.eval_condition(right))
                } else if kind == TokenKind::Tilde {
                    let haystack = self.eval_expression(left);
                    let needle = self.eval_expression(right);
                    truth_chars(awk_regex_matches(&haystack, &needle))
                } else if kind == TokenKind::NoMatch {
                    let haystack = self.eval_expression(left);
                    let needle = self.eval_expression(right);
                    truth_chars(!awk_regex_matches(&haystack, &needle))
                } else {
                    self.eval_expression(right)
                }
            },
        }
    }

    /// The number that an expression stands for.
    pub fn eval_numeric_expression(&self, expression: &Expression) -> (n: Number)
        requires
            self.wf(),
        ensures
            n == eval_number(self@, expression@),
        decreases expression, 1int,
    {
        match expression {
            Expression::Number(n) => *n,
            Expression::Infix { left, operator, right } => {
                if arithmetic_operator(operator.kind) {
                    let a = self.eval_numeric_expression(left);
                    let b = self.eval_numeric_expression(right);
                    eval_numeric_infix(operator.kind, a, b).unwrap()
                } else {
                    Number::from_chars(&self.eval_expression(expression))
                }
            },
            _ => Number::from_chars(&self.eval_expression(expression)),
        }
    }

    /// Whether an expression holds as a condition.
    pub fn eval_condition(&self, expression: &Expression) -> (r: bool)
        requires
            self.wf(),
        ensures
            r == eval_condition(self@, expression@),
        decreases expression, 2int,
    {
        match expression {
            Expression::Regex(p) => {
                match &self.record {
                    Some(r) => awk_regex_matches(r, &chars_of(p.as_str())),
                    None => false,
                }
            },
            Expression::Number(n) => !n.same(Number::Finite(0)),
            Expression::Infix { left, operator, right } => {
                let kind = operator.kind;
                if kind == TokenKind::And {
                    self.eval_condition(left) && self.eval_condition(right)
                } else if kind == TokenKind::Or {
                    self.eval_condition(left) || self.eval_condition(right)
                } else if kind == TokenKind::Tilde {
                    let haystack = self.eval_expression(left);
                    let needle = self.eval_expression(right);
                    awk_regex_matches(&haystack, &needle)
                } else if kind == TokenKind::NoMatch {
                    let haystack = self.eval_expression(left);
                    let needle = self.eval_expression(right);
                    !awk_regex_matches(&haystack, &needle)
                } else if comparison_operator(kind) {
                    let a = self.eval_expression(left);
                    let b = self.eval_expression(right);
                    eval_comparison(kind, &a, &b).unwrap()
                } else if arithmetic_operator(kind) {
                    !self.eval_numeric_expression(expression).same(Number::Finite(0))
                } else {
                    truth_of(&self.eval_expression(expression))
                }
            },
            _ => truth_of(&self.eval_expression(expression)),
        }
    }

    /// Writes one line.
    fn emit(&mut self, line: Vec<char>)
        requires
            old(self).wf(),
        ensures
            final(self).wf(),
            final(self)@ == emit(old(self)@, line@),
    {
        let ghost before = texts(self.output@);
        self.output.push(line);
        assert(texts(self.output@) =~= before.push(line@));
    }

    /// Sets the separator that `identifier` names, if it names one.
    fn set_special_variable(&mut self, identifier: &Vec<char>, value: &Vec<char>)
        requires
            old(self).wf(),
        ensures
            final(self).wf(),
            final(self)@ == (EnvView {
                fs: if identifier@ == "FS"@ {
                    crate::format::unescaped(value@)
                } else {
                    old(self)@.fs
                },
                ofs: if identifier@ == "OFS"@ {
                    crate::format::unescaped(value@)
                } else {
                    old(self)@.ofs
                },
                ..old(self)@
            }),
    {
        if chars_are(identifier, "FS") {
            self.field_separator_set(unescape_awk_string(value));
        }
        if chars_are(identifier, "OFS") {
            self.ofs = unescape_awk_string(value);
        }
    }

    /// Sets the separator of the fields of a record.
    fn field_separator_set(&mut self, separator: Vec<char>)
        requires
            old(self).wf(),
        ensures
            final(self).wf(),
            final(self)@ == (EnvView { fs: separator@, ..old(self)@ }),
    {
        self.fs = separator;
    }

    /// Binds `name` to `value`.
    fn bind(&mut self, name: &Vec<char>, value: Vec<char>)
        requires
            old(self).wf(),
        ensures
            final(self).wf(),
            final(self)@ == bound(old(self)@, name@, value@),
    {
        self.set_special_variable(name, &value);
        self.variables.set(name, value);
    }

    /// Runs the assignments that the right side of an assignment holds, and
    /// returns the value that it gives.
    fn eval_assignment_infix(&mut self, value: &Expression) -> (out: Vec<char>)
        requires
            old(self).wf(),
        ensures
            final(self).wf(),
            final(self)@ == assigned(old(self)@, value@).0,
            out@ == assigned(old(self)@, value@).1,
        decreases value,
    {
        match assignment_target(value) {
            Some((name, right)) => {
                let assigned_value = self.eval_assignment_infix(right);
                let name = chars_of(name.as_str());
                self.bind(&name, copy_chars(&assigned_value));
                assigned_value
            },
            None => self.eval_expression(assignment_source(value)),
        }
    }

    /// Runs `name = value`.
    fn eval_assignment(&mut self, identifier: &String, value: &Expression)
        requires
            old(self).wf(),
        ensures
            final(self).wf(),
            final(self)@ == bound(
                assigned(old(self)@, value@).0,
                identifier@,
                assigned(old(self)@, value@).1,
            ),
    {
        let assigned_value = self.eval_assignment_infix(value);
        let name = chars_of(identifier.as_str());
        self.bind(&name, assigned_value);
    }

    /// Raises the variable `key`, whose value is `current`, by `by`.
    fn raise(&mut self, key: &Vec<char>, current: &Vec<char>, by: Number)
        requires
            old(self).wf(),
        ensures
            final(self).wf(),
            final(self)@ == raised(old(self)@, key@, current@, by),
    {
        let sum = Number::from_chars(current).plus(by);
        self.variables.set(key, sum.exact_chars());
    }

    /// Runs `name += value`.
    fn eval_add_assignment(&mut self, identifier: &String, value: &Expression)
        requires
            old(self).wf(),
        ensures
            final(self).wf(),
            final(self)@ == raised(
                old(self)@,
                identifier@,
                identifier_text(old(self)@, identifier@),
                eval_number(old(self)@, value@),
            ),
    {
        let name = chars_of(identifier.as_str());
        let current = self.eval_identifier_expression(&name);
        let increment = self.eval_numeric_expression(value);
        self.raise(&name, &current, increment);
    }

    /// Runs `++name` or `name++`.
    fn eval_pre_increment(&mut self, identifier: &String)
        requires
            old(self).wf(),
        ensures
            final(self).wf(),
            final(self)@ == raised(
                old(self)@,
                identifier@,
                identifier_text(old(self)@, identifier@),
                Number::Finite(SCALE),
            ),
    {
        let name = chars_of(identifier.as_str());
        let current = self.eval_identifier_expression(&name);
        self.raise(&name, &current, Number::Finite(SCALE));
    }

    /// Runs `$field = value`.
    fn eval_field_assignment(&mut self, field: &Expression, value: &Expression)
        requires
            old(self).wf(),
        ensures
            final(self).wf(),
            final(self)@ == simple_step(
                old(self)@,
                crate::ast::StatementView::FieldAssignment { field: field@, value: value@ },
            ),
    {
        if self.record.is_none() {
            return ;
        }
        let index = self.eval_numeric_expression(field).whole_part(i64::MIN, i64::MAX);
        if index <= 0 || index as u64 > usize::MAX as u64 {
            return ;
        }
        let mut fields = self.split_fields();
        let text = self.eval_expression(value);
        set_field(&mut fields, index as usize, text);
        self.record = Some(join_fields(&fields, &self.ofs));
    }

    /// Runs `gsub(pattern, replacement)`.
    fn eval_gsub(&mut self, pattern: &Expression, replacement: &Expression)
        requires
            old(self).wf(),
        ensures
            final(self).wf(),
            final(self)@ == simple_step(
                old(self)@,
                crate::ast::StatementView::Gsub { pattern: pattern@, replacement: replacement@ },
            ),
    {
        let pattern = self.eval_expression(pattern);
        let replacement = unescape_awk_string(&self.eval_expression(replacement));
        let replaced = match &self.record {
            None => {
                return ;
            },
            Some(line) => awk_gsub_replace_all(line, &pattern, &replacement),
        };
        self.record = Some(replaced);
    }

    /// The line that `print` writes.
    fn eval_print(&self, expressions: &Vec<Expression>) -> (line: Vec<char>)
        requires
            self.wf(),
        ensures
            line@ == print_line(self@, expressions_view(expressions@)),
    {
        if expressions.len() == 0 {
            return match &self.record {
                Some(r) => copy_chars(r),
                None => Vec::new(),
            };
        }
        let ghost items = expressions_view(expressions@);
        let mut line: Vec<char> = Vec::new();
        let mut i: usize = 0;
        while i < expressions.len()
            invariant
                i <= expressions.len(),
                self.wf(),
                items == expressions_view(expressions@),
                line@ == print_text(self@, items, i as nat),
            decreases expressions.len() - i,
        {
            assert(items[i as int] == expressions[i as int]@);
            if 0 < i && i < expressions.len() - 1 && stands_for_comma(&expressions[i]) {
                push_all(&mut line, &self.ofs);
            } else {
                let part = self.eval_expression(&expressions[i]);
                push_all(&mut line, &part);
            }
            i += 1;
        }
        line
    }

    /// The line that `printf` writes.
    fn eval_printf(&self, expressions: &Vec<Expression>) -> (line: Vec<char>)
        requires
            self.wf(),
        ensures
            line@ == printf_line(self@, expressions_view(expressions@)),
    {
        if expressions.len() == 0 {
            return Vec::new();
        }
        let ghost items = expressions_view(expressions@);
        let format = unescape_awk_string(&self.eval_expression(&expressions[0]));
        let mut args: Vec<Vec<char>> = Vec::new();
        let mut i: usize = 1;
        while i < expressions.len()
            invariant
                1 <= i <= expressions.len(),
                self.wf(),
                items == expressions_view(expressions@),
                texts(args@) =~= Seq::new((i - 1) as nat, |k: int| eval_text(self@, items[k + 1])),
            decreases expressions.len() - i,
        {
            let ghost before = texts(args@);
            let arg = self.eval_expression(&expressions[i]);
            assert(arg@ == eval_text(self@, items[i as int]));
            args.push(arg);
            assert(texts(args@) =~= before.push(eval_text(self@, items[i as int])));
            i += 1;
        }
        assert(texts(args@) =~= printf_arguments(self@, items));
        let rendered = expand_tabs(&format_printf(&format, &args));
        trim_line_end(&rendered)
    }

    /// Runs `name[index] = value`.
    fn eval_array_assignment(&mut self, identifier: &String, index: &Expression, value: &Expression)
        requires
            old(self).wf(),
        ensures
            final(self).wf(),
            final(self)@ == simple_step(
                old(self)@,
                crate::ast::StatementView::ArrayAssignment {
                    identifier: identifier@,
                    index: index@,
                    value: value@,
                },
            ),
    {
        let key = array_key_chars(identifier, &self.eval_expression(index));
        let text = self.eval_expression(value);
        self.variables.set(&key, text);
    }

    /// Runs `name[index] += value`.
    fn eval_array_add_assignment(
        &mut self,
        identifier: &String,
        index: &Expression,
        value: &Expression,
    )
        requires
            old(self).wf(),
        ensures
            final(self).wf(),
            final(self)@ == simple_step(
                old(self)@,
                crate::ast::StatementView::ArrayAddAssignment {
                    identifier: identifier@,
                    index: index@,
                    value: value@,
                },
            ),
    {
        let key = array_key_chars(identifier, &self.eval_expression(index));
        let current = self.variables.get(&key);
        let increment = self.eval_numeric_expression(value);
        self.raise(&key, &current, increment);
    }

    /// Runs `exit`.
    fn eval_exit(&mut self)
        requires
            old(self).wf(),
        ensures
            final(self).wf(),
            final(self)@ == (EnvView { exited: true, ..old(self)@ }),
    {
        self.exited = true;
    }

    /// Whether `exit` has been run.
    fn has_exited(&self) -> (r: bool)
        ensures
            r == self@.exited,
    {
        self.exited
    }

    /// Runs a statement.
    pub fn eval_statement(&mut self, statement: &Statement, limit: u64)
        requires
            old(self).wf(),
        ensures
            final(self).wf(),
            final(self)@ == exec_statement(old(self)@, statement@, limit as nat),
        decreases statement, 2int, 0nat,
    {
        if self.has_exited() {
            return ;
        }
        match statement {
            Statement::Print(expressions) => {
                let line = self.eval_print(expressions);
                self.emit(line);
            },
            Statement::Printf(expressions) => {
                let line = self.eval_printf(expressions);
                self.emit(line);
            },
            Statement::Gsub { pattern, replacement } => self.eval_gsub(pattern, replacement),
            Statement::Assignment { identifier, value } => self.eval_assignment(identifier, value),
            Statement::FieldAssignment { field, value } => self.eval_field_assignment(
                field,
                value,
            ),
            Statement::AddAssignment { identifier, value } => self.eval_add_assignment(
                identifier,
                value,
            ),
            Statement::PreIncrement { identifier } => self.eval_pre_increment(identifier),
            Statement::PostIncrement { identifier } => self.eval_pre_increment(identifier),
            Statement::If { condition, then_statements } => {
                if self.eval_condition(condition) {
                    self.eval_action(then_statements, limit);
                }
            },
            Statement::While { condition, statements } => {
                let mut rounds: u64 = limit;
                while rounds > 0 && !self.has_exited() && self.eval_condition(condition)
                    invariant
                        self.wf(),
                        statement == (Statement::While {
                            condition: *condition,
                            statements: *statements,
                        }),
                        while_rounds(old(self)@, statement@, limit as nat, limit as nat)
                            == while_rounds(self@, statement@, limit as nat, rounds as nat),
                    decreases rounds,
                {
                    self.eval_action(statements, limit);
                    rounds -= 1;
                }
            },
            Statement::For { init, condition, update, statements } => {
                self.eval_statement(init, limit);
                let ghost begun = self@;
                let mut rounds: u64 = limit;
                while rounds > 0 && !self.has_exited() && self.eval_condition(condition)
                    invariant
                        self.wf(),
                        statement == (Statement::For {
                            init: *init,
                            condition: *condition,
                            update: *update,
                            statements: *statements,
                        }),
                        for_rounds(begun, statement@, limit as nat, limit as nat) == for_rounds(
                            self@,
                            statement@,
                            limit as nat,
                            rounds as nat,
                        ),
                    decreases rounds,
                {
                    self.eval_action(statements, limit);
                    self.eval_statement(update, limit);
                    rounds -= 1;
                }
            },
            Statement::Exit => self.eval_exit(),
            Statement::ArrayAssignment { identifier, index, value } => self.eval_array_assignment(
                identifier,
                index,
                value,
            ),
            Statement::ArrayAddAssignment {
                identifier,
                index,
                value,
            } => self.eval_array_add_assignment(identifier, index, value),
        }
    }

    /// Runs statements in order.
    pub fn eval_action(&mut self, statements: &Vec<Statement>, limit: u64)
        requires
            old(self).wf(),
        ensures
            final(self).wf(),
            final(self)@ == exec_block(old(self)@, statements_view(*statements), limit as nat),
        decreases statements, 0int, 0nat,
    {
        let ghost views = statements_view(*statements);
        let mut i: usize = 0;
        while i < statements.len()
            invariant
                i <= statements.len(),
                self.wf(),
                views == statements_view(*statements),
                self@ == exec_block(old(self)@, views.take(i as int), limit as nat),
            decreases statements.len() - i,
        {
            proof {
                assert(views.take(i + 1).drop_last() =~= views.take(i as int));
                assert(views.take(i + 1).last() == statements@[i as int]@);
            }
            self.eval_statement(&statements[i], limit);
            i += 1;
        }
        assert(views.take(statements.len() as int) =~= views);
    }

    /// Whether the pattern selects the current record, and whether its
    /// range is open afterwards.
    fn eval_pattern_condition(&self, pattern: &Expression, active: bool) -> (r: (bool, bool))
        requires
            self.wf(),
        ensures
            r == pattern_selects(self@, pattern@, active),
    {
        match pattern {
            Expression::Infix { left, operator, right } => {
                if operator.kind == TokenKind::Comma {
                    let starts = self.eval_condition(left);
                    let ends = self.eval_condition(right);
                    if !active && !starts {
                        (false, false)
                    } else {
                        (true, !ends)
                    }
                } else {
                    (self.eval_condition(pattern), active)
                }
            },
            _ => (self.eval_condition(pattern), active),
        }
    }

    /// Lets a rule see the current record, whose text as it was read is
    /// `raw`; returns whether the rule's range is open afterwards.
    fn eval_rule(&mut self, rule: &Rule, active: bool, raw: &Vec<char>, limit: u64) -> (after: bool)
        requires
            old(self).wf(),
        ensures
            final(self).wf(),
            (final(self)@, after) == rule_step(old(self)@, rule@, active, raw@, limit as nat),
    {
        if self.has_exited() {
            return active;
        }
        match rule {
            Rule::Action(action) => {
                self.eval_action(&action.statements, limit);
                active
            },
            Rule::PatternAction { pattern, action } => {
                let selects = match pattern {
                    Some(p) => self.eval_pattern_condition(p, active),
                    None => (true, active),
                };
                if selects.0 {
                    match action {
                        Some(a) => self.eval_action(&a.statements, limit),
                        None => self.emit(copy_chars(raw)),
                    }
                }
                selects.1
            },
            _ => active,
        }
    }

    /// Runs a `BEGIN` block; any other rule is passed over.
    fn eval_begin_rule(&mut self, rule: &Rule, limit: u64)
        requires
            old(self).wf(),
        ensures
            final(self).wf(),
            final(self)@ == (match rule@ {
                crate::ast::RuleView::Begin(a) => exec_block(
                    old(self)@,
                    a.statements,
                    limit as nat,
                ),
                _ => old(self)@,
            }),
    {
        match rule {
            Rule::Begin(action) => self.eval_action(&action.statements, limit),
            _ => {},
        }
    }

    /// Runs an `END` block; any other rule is passed over.
    fn eval_end_rule(&mut self, rule: &Rule, limit: u64)
        requires
            old(self).wf(),
        ensures
            final(self).wf(),
            final(self)@ == (match rule@ {
                crate::ast::RuleView::End(a) => exec_block(old(self)@, a.statements, limit as nat),
                _ => old(self)@,
            }),
    {
        match rule {
            Rule::End(action) => self.eval_action(&action.statements, limit),
            _ => {},
        }
    }

    /// Runs the `BEGIN` blocks among `blocks` if `begin`, else the `END`
    /// blocks.
    fn eval_blocks(&mut self, blocks: &Vec<Rule>, begin: bool, limit: u64)
        requires
            old(self).wf(),
        ensures
            final(self).wf(),
            final(self)@ == blocks_run(
                old(self)@,
                rules_view(blocks@),
                begin,
                limit as nat,
                blocks@.len(),
            ),
    {
        let mut i: usize = 0;
        while i < blocks.len()
            invariant
                i <= blocks.len(),
                self.wf(),
                self@ == blocks_run(old(self)@, rules_view(blocks@), begin, limit as nat, i as nat),
            decreases blocks.len() - i,
        {
            if begin {
                self.eval_begin_rule(&blocks[i], limit);
            } else {
                self.eval_end_rule(&blocks[i], limit);
            }
            i += 1;
        }
    }

    /// Lets the rules see the record `raw`, of number `index` counted from
    /// zero.
    fn eval_record(
        &mut self,
        rules: &Vec<Rule>,
        ranges: &mut Vec<bool>,
        raw: &Vec<char>,
        index: usize,
        limit: u64,
    )
        requires
            old(self).wf(),
            old(ranges)@.len() == rules@.len(),
            index < usize::MAX,
        ensures
            final(self).wf(),
            final(ranges)@.len() == rules@.len(),
            (final(self)@, final(ranges)@) == rules_step(
                at_record(old(self)@, raw@, index as nat),
                rules_view(rules@),
                old(ranges)@,
                raw@,
                limit as nat,
                rules@.len(),
            ),
    {
        self.record = Some(copy_chars(raw));
        self.nr = index + 1;
        let ghost start = self@;
        let ghost first = ranges@;
        let mut j: usize = 0;
        while j < rules.len()
            invariant
                j <= rules.len(),
                self.wf(),
                ranges@.len() == rules@.len(),
                (self@, ranges@) == rules_step(
                    start,
                    rules_view(rules@),
                    first,
                    raw@,
                    limit as nat,
                    j as nat,
                ),
            decreases rules.len() - j,
        {
            let after = self.eval_rule(&rules[j], ranges[j], raw, limit);
            ranges[j] = after;
            j += 1;
        }
    }

    /// The lines written so far, as strings.
    fn lines(&self) -> (out: Vec<String>)
        ensures
            string_texts(out@) == self@.output,
    {
        let mut out: Vec<String> = Vec::new();
        let mut i: usize = 0;
        while i < self.output.len()
            invariant
                i <= self.output.len(),
                string_texts(out@) =~= texts(self.output@).take(i as int),
            decreases self.output.len() - i,
        {
            let ghost before = string_texts(out@);
            let line = string_of(&self.output[i]);
            out.push(line);
            assert(string_texts(out@) =~= before.push(self.output@[i as int]@));
            assert(texts(self.output@).take(i + 1) =~= texts(self.output@).take(i as int).push(
                self.output@[i as int]@,
            ));
            i += 1;
        }
        assert(texts(self.output@).take(self.output.len() as int) =~= texts(self.output@));
        out
    }

    /// Forgets the record and `exit`, and sets the number of records: the
    /// environment in which the `END` blocks run.
    fn finish_records(&mut self, count: usize)
        requires
            old(self).wf(),
        ensures
            final(self).wf(),
            final(self)@ == at_end(old(self)@, count as nat),
    {
        self.record = None;
        self.nr = count;
        self.exited = false;
    }
}

/// The lines that `program` writes for `records`. `filename` is what the
/// script reads as `FILENAME`, and `limit` is the number of rounds after
/// which a loop of the script stops.
pub fn run_program(program: &Program, records: &Vec<String>, filename: &str, limit: u64) -> (out:
    Vec<String>)
    ensures
        string_texts(out@) == eval_lines(
            program@,
            string_texts(records@),
            filename@,
            limit as nat,
        ),
{
    let rules = program.rules();
    let mut env = Environment::new(filename);
    env.eval_blocks(program.begin_blocks(), true, limit);
    let ghost begun = env@;
    let mut ranges: Vec<bool> = Vec::new();
    let mut k: usize = 0;
    while k < rules.len()
        invariant
            k <= rules.len(),
            ranges@ =~= closed_ranges(k as nat),
        decreases rules.len() - k,
    {
        ranges.push(false);
        k += 1;
    }
    let ghost texts_of_records = string_texts(records@);
    let mut i: usize = 0;
    while i < records.len()
        invariant
            i <= records.len(),
            env.wf(),
            ranges@.len() == rules@.len(),
            texts_of_records == string_texts(records@),
            rules_view(rules@) == program@.rules,
            (env@, ranges@) == records_run(
                begun,
                program@.rules,
                closed_ranges(rules@.len()),
                texts_of_records,
                limit as nat,
                i as nat,
            ),
        decreases records.len() - i,
    {
        if !env.has_exited() {
            let raw = chars_of(records[i].as_str());
            assert(raw@ == texts_of_records[i as int]);
            env.eval_record(rules, &mut ranges, &raw, i, limit);
        }
        i += 1;
    }
    env.finish_records(records.len());
    env.eval_blocks(program.end_blocks(), false, limit);
    env.lines()
}

/// An evaluator: a program, with the records that it is to see.
pub struct Evaluator {
    program: Program,
    input_lines: Vec<String>,
    current_filename: String,
    loop_limit: u64,
}

impl Evaluator {
    /// The program that is run.
    pub closed spec fn program(&self) -> crate::ast::ProgramView {
        self.program@
    }

    /// The records that the program sees.
    pub closed spec fn records(&self) -> Seq<Seq<char>> {
        string_texts(self.input_lines@)
    }

    /// What the script reads as `FILENAME`.
    pub closed spec fn filename(&self) -> Seq<char> {
        self.current_filename@
    }

    /// The number of rounds after which a loop of the script stops.
    pub closed spec fn loop_limit(&self) -> nat {
        self.loop_limit as nat
    }

    /// An evaluator of `program` on the records `input_lines`. The input has
    /// the name `-`, and a loop stops after 2^64 - 1 rounds.
    pub fn new(program: Program, input_lines: Vec<String>) -> (evaluator: Evaluator)
        ensures
            evaluator.program() == program@,
            evaluator.records() == string_texts(input_lines@),
            evaluator.filename() == "-"@,
            evaluator.loop_limit() == u64::MAX,
    {
        Evaluator { program, input_lines, current_filename: "-".to_owned(), loop_limit: u64::MAX }
    }

    /// An evaluator like that of [`Evaluator::new`], for an input of the
    /// name `filename`.
    pub fn with_filename(program: Program, input_lines: Vec<String>, filename: String) -> (evaluator:
        Evaluator)
        ensures
            evaluator.program() == program@,
            evaluator.records() == string_texts(input_lines@),
            evaluator.filename() == filename@,
            evaluator.loop_limit() == u64::MAX,
    {
        Evaluator { program, input_lines, current_filename: filename, loop_limit: u64::MAX }
    }

    /// Sets the number of rounds after which a loop of the script stops.
    pub fn set_loop_limit(&mut self, limit: u64)
        ensures
            final(self).program() == old(self).program(),
            final(self).records() == old(self).records(),
            final(self).filename() == old(self).filename(),
            final(self).loop_limit() == limit,
    {
        self.loop_limit = limit;
    }

    /// Runs the program on the records and returns the lines that it
    /// writes. Every call starts from a fresh environment.
    pub fn eval(&mut self) -> (out: Vec<String>)
        ensures
            final(self).program() == old(self).program(),
            final(self).records() == old(self).records(),
            final(self).filename() == old(self).filename(),
            final(self).loop_limit() == old(self).loop_limit(),
            string_texts(out@) == eval_lines(
                old(self).program(),
                old(self).records(),
                old(self).filename(),
                old(self).loop_limit(),
            ),
    {
        run_program(&self.program, &self.input_lines, self.current_filename.as_str(), self.loop_limit)
    }
}

/// The environment after the `BEGIN` blocks of `program` have run.
pub open spec fn begun(program: crate::ast::ProgramView, filename: Seq<char>, limit: nat)
    -> EnvView {
    blocks_run(initial_env(filename), program.begin_blocks, true, limit, program.begin_blocks.len())
}

/// A run that takes its records one by one: the `BEGIN` blocks have run, and
/// each record that is fed is seen by the rules before the next one is asked
/// for.
pub struct Session<'a> {
    program: &'a Program,
    env: Environment,
    ranges: Vec<bool>,
    limit: u64,
    count: usize,
    name: Ghost<Seq<char>>,
    fed: Ghost<Seq<Seq<char>>>,
}

impl<'a> Session<'a> {
    /// The program that is run.
    pub closed spec fn program(&self) -> crate::ast::ProgramView {
        self.program@
    }

    /// What the script reads as `FILENAME`.
    pub closed spec fn filename(&self) -> Seq<char> {
        self.name@
    }

    /// The number of rounds after which a loop of the script stops.
    pub closed spec fn loop_limit(&self) -> nat {
        self.limit as nat
    }

    /// The records fed so far.
    pub closed spec fn fed(&self) -> Seq<Seq<char>> {
        self.fed@
    }

    /// The lines written so far.
    pub closed spec fn written(&self) -> Seq<Seq<char>> {
        self.env@.output
    }

    /// Whether the session is in order: its environment is the one after
    /// the records fed so far.
    pub closed spec fn wf(&self) -> bool {
        &&& self.env.wf()
        &&& self.ranges@.len() == self.program@.rules.len()
        &&& self.fed@.len() == self.count
        &&& self.count < usize::MAX
        &&& (self.env@, self.ranges@) == records_run(
            begun(self.program@, self.name@, self.limit as nat),
            self.program@.rules,
            closed_ranges(self.program@.rules.len()),
            self.fed@,
            self.limit as nat,
            self.fed@.len(),
        )
    }

    /// What the session has written, given what it has been fed: the lines
    /// of the environment after the `BEGIN` blocks and the records.
    pub proof fn law_written(&self)
        requires
            self.wf(),
        ensures
            self.written() == records_run(
                begun(self.program(), self.filename(), self.loop_limit()),
                self.program().rules,
                closed_ranges(self.program().rules.len()),
                self.fed(),
                self.loop_limit(),
                self.fed().len(),
            ).0.output,
    {
    }

    /// Starts a run of `program`: runs its `BEGIN` blocks.
    pub fn start(program: &'a Program, filename: &str, limit: u64) -> (session: Session<'a>)
        ensures
            session.wf(),
            session.program() == program@,
            session.filename() == filename@,
            session.loop_limit() == limit,
            session.fed() == Seq::<Seq<char>>::empty(),
    {
        let rules = program.rules();
        let mut env = Environment::new(filename);
        env.eval_blocks(program.begin_blocks(), true, limit);
        let mut ranges: Vec<bool> = Vec::new();
        let mut k: usize = 0;
        while k < rules.len()
            invariant
                k <= rules.len(),
                ranges@ =~= closed_ranges(k as nat),
            decreases rules.len() - k,
        {
            ranges.push(false);
            k += 1;
        }
        Session {
            program,
            env,
            ranges,
            limit,
            count: 0,
            name: Ghost(filename@),
            fed: Ghost(Seq::empty()),
        }
    }

    /// Lets the rules see one more record. Returns `false`, and does
    /// nothing, if the machine cannot count one more record.
    pub fn feed(&mut self, record: &str) -> (taken: bool)
        requires
            old(self).wf(),
        ensures
            final(self).wf(),
            final(self).program() == old(self).program(),
            final(self).filename() == old(self).filename(),
            final(self).loop_limit() == old(self).loop_limit(),
            taken == (old(self).fed().len() + 1 < usize::MAX),
            final(self).fed() == if taken {
                old(self).fed().push(record@)
            } else {
                old(self).fed()
            },
    {
        let index = self.count;
        if index >= usize::MAX - 1 {
            return false;
        }
        let ghost before = self.fed@;
        self.fed = Ghost(before.push(record@));
        proof {
            assert(self.fed@.drop_last() =~= before);
            lemma_records_prefix(
                begun(self.program@, self.name@, self.limit as nat),
                self.program@.rules,
                closed_ranges(self.program@.rules.len()),
                before,
                self.fed@,
                self.limit as nat,
                before.len(),
            );
        }
        if !self.env.has_exited() {
            let raw = chars_of(record);
            self.env.eval_record(self.program.rules(), &mut self.ranges, &raw, index, self.limit);
        }
        self.count = index + 1;
        true
    }

    /// The number of lines written so far.
    pub fn lines_written(&self) -> (count: usize)
        ensures
            count == self.written().len(),
    {
        self.env.output.len()
    }

    /// The lines written so far, from the line of number `start` on.
    pub fn lines_from(&self, start: usize) -> (out: Vec<String>)
        ensures
            start <= self.written().len() ==> string_texts(out@) == self.written().subrange(
                start as int,
                self.written().len() as int,
            ),
            start > self.written().len() ==> out@.len() == 0,
    {
        let mut out: Vec<String> = Vec::new();
        let n = self.env.output.len();
        if start > n {
            return out;
        }
        let ghost all = texts(self.env.output@);
        let mut i: usize = start;
        assert(string_texts(out@) =~= all.subrange(start as int, i as int));
        while i < n
            invariant
                start <= i <= n,
                n == self.env.output@.len(),
                all == texts(self.env.output@),
                string_texts(out@) == all.subrange(start as int, i as int),
            decreases n - i,
        {
            let ghost before = string_texts(out@);
            let line = string_of(&self.env.output[i]);
            out.push(line);
            assert(string_texts(out@) =~= before.push(self.env.output@[i as int]@));
            assert(all.subrange(start as int, i + 1) =~= all.subrange(start as int, i as int).push(
                self.env.output@[i as int]@,
            ));
            i += 1;
        }
        out
    }

    /// Ends the run: runs the `END` blocks and returns all the lines that
    /// the program has written, which are those of a run on all the records
    /// at once.
    pub fn finish(self) -> (out: Vec<String>)
        requires
            self.wf(),
        ensures
            string_texts(out@) == eval_lines(
                self.program(),
                self.fed(),
                self.filename(),
                self.loop_limit(),
            ),
    {
        let mut session = self;
        session.env.finish_records(session.count);
        session.env.eval_blocks(session.program.end_blocks(), false, session.limit);
        session.env.lines()
    }
}

/// The first `n` records alone say what a run does with them.
pub proof fn lemma_records_prefix(
    env: EnvView,
    rules: Seq<crate::ast::RuleView>,
    ranges: Seq<bool>,
    shorter: Seq<Seq<char>>,
    longer: Seq<Seq<char>>,
    limit: nat,
    n: nat,
)
    requires
        n <= shorter.len() <= longer.len(),
        forall|i: int| 0 <= i < shorter.len() ==> shorter[i] == longer[i],
    ensures
        records_run(env, rules, ranges, shorter, limit, n) == records_run(
            env,
            rules,
            ranges,
            longer,
            limit,
            n,
        ),
    decreases n,
{
    if n > 0 {
        lemma_records_prefix(env, rules, ranges, shorter, longer, limit, (n - 1) as nat);
    }
}

} // verus!
