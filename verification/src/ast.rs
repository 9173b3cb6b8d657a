//! The syntax tree of a program, and what each tree stands for.
//!
//! Every type of the tree has a view: the same tree with sequences of
//! characters in place of strings, and the kind of a token in place of the
//! token. Two trees with the same view differ at most in where their
//! operators stood in the script. What the view leaves out of an operator
//! token is said by [`token_stands`]: the literal is the text of the kind,
//! and the offset is a place of the script where that text stands.

use vstd::prelude::*;
use crate::number::Number;
use crate::text::occurs_at;
use crate::token::{kind_text, Token, TokenKind, TokenView};

verus! {

/// An expression.
#[derive(Debug, PartialEq)]
pub enum Expression {
    /// A numeric literal.
    Number(Number),
    /// A string literal, with its escapes as written.
    String(String),
    /// A regex literal.
    Regex(String),
    /// A field of the record: `$` and the expression that numbers it.
    Field(Box<Expression>),
    /// A variable.
    Identifier(String),
    /// An element of an array.
    ArrayAccess { identifier: String, index: Box<Expression> },
    /// The length of a text, or of the record if no text is given.
    Length(Option<Box<Expression>>),
    /// A part of a text.
    Substr { string: Box<Expression>, start: Box<Expression>, length: Option<Box<Expression>> },
    /// Two texts, one after the other.
    Concatenation { left: Box<Expression>, right: Box<Expression> },
    /// Two expressions joined by an operator.
    Infix { left: Box<Expression>, operator: Token, right: Box<Expression> },
}

/// A statement.
#[derive(Debug, PartialEq)]
pub enum Statement {
    Print(Vec<Expression>),
    Printf(Vec<Expression>),
    Gsub { pattern: Expression, replacement: Expression },
    Assignment { identifier: String, value: Expression },
    FieldAssignment { field: Expression, value: Expression },
    AddAssignment { identifier: String, value: Expression },
    PreIncrement { identifier: String },
    PostIncrement { identifier: String },
    If { condition: Expression, then_statements: Vec<Statement> },
    While { condition: Expression, statements: Vec<Statement> },
    For {
        init: Box<Statement>,
        condition: Expression,
        update: Box<Statement>,
        statements: Vec<Statement>,
    },
    Exit,
    ArrayAssignment { identifier: String, index: Expression, value: Expression },
    ArrayAddAssignment { identifier: String, index: Expression, value: Expression },
}

/// The statements between a pair of braces.
#[derive(Debug, PartialEq)]
pub struct Action {
    pub statements: Vec<Statement>,
}

/// A rule of a program.
#[derive(Debug, PartialEq)]
pub enum Rule {
    /// Runs once, before the first record.
    Begin(Action),
    /// Runs once, after the last record.
    End(Action),
    /// Runs for every record.
    Action(Action),
    /// Runs for the records that the pattern selects. Without an action the
    /// record is printed.
    PatternAction { pattern: Option<Expression>, action: Option<Action> },
}

/// A program: its `BEGIN` blocks, its rules and its `END` blocks, each in
/// the order of the script.
#[derive(Debug, PartialEq)]
pub struct Program {
    begin_blocks: Vec<Rule>,
    rules: Vec<Rule>,
    end_blocks: Vec<Rule>,
}

/// What an [`Expression`] stands for.
pub enum ExpressionView {
    Number(Number),
    String(Seq<char>),
    Regex(Seq<char>),
    Field(Box<ExpressionView>),
    Identifier(Seq<char>),
    ArrayAccess { identifier: Seq<char>, index: Box<ExpressionView> },
    Length(Option<Box<ExpressionView>>),
    Substr {
        string: Box<ExpressionView>,
        start: Box<ExpressionView>,
        length: Option<Box<ExpressionView>>,
    },
    Concatenation { left: Box<ExpressionView>, right: Box<ExpressionView> },
    Infix { left: Box<ExpressionView>, operator: TokenKind, right: Box<ExpressionView> },
}

/// What a [`Statement`] stands for.
pub enum StatementView {
    Print(Seq<ExpressionView>),
    Printf(Seq<ExpressionView>),
    Gsub { pattern: ExpressionView, replacement: ExpressionView },
    Assignment { identifier: Seq<char>, value: ExpressionView },
    FieldAssignment { field: ExpressionView, value: ExpressionView },
    AddAssignment { identifier: Seq<char>, value: ExpressionView },
    PreIncrement { identifier: Seq<char> },
    PostIncrement { identifier: Seq<char> },
    If { condition: ExpressionView, then_statements: Seq<StatementView> },
    While { condition: ExpressionView, statements: Seq<StatementView> },
    For {
        init: Box<StatementView>,
        condition: ExpressionView,
        update: Box<StatementView>,
        statements: Seq<StatementView>,
    },
    Exit,
    ArrayAssignment { identifier: Seq<char>, index: ExpressionView, value: ExpressionView },
    ArrayAddAssignment { identifier: Seq<char>, index: ExpressionView, value: ExpressionView },
}

/// What an [`Action`] stands for.
pub struct ActionView {
    pub statements: Seq<StatementView>,
}

/// What a [`Rule`] stands for.
pub enum RuleView {
    Begin(ActionView),
    End(ActionView),
    Action(ActionView),
    PatternAction { pattern: Option<ExpressionView>, action: Option<ActionView> },
}

/// What a [`Program`] stands for.
pub struct ProgramView {
    pub begin_blocks: Seq<RuleView>,
    pub rules: Seq<RuleView>,
    pub end_blocks: Seq<RuleView>,
}

/// The view of an expression.
pub open spec fn expression_view(e: Expression) -> ExpressionView
    decreases e,
{
    match e {
        Expression::Number(n) => ExpressionView::Number(n),
        Expression::String(s) => ExpressionView::String(s@),
        Expression::Regex(s) => ExpressionView::Regex(s@),
        Expression::Field(inner) => ExpressionView::Field(Box::new(expression_view(*inner))),
        Expression::Identifier(s) => ExpressionView::Identifier(s@),
        Expression::ArrayAccess { identifier, index } => ExpressionView::ArrayAccess {
            identifier: identifier@,
            index: Box::new(expression_view(*index)),
        },
        Expression::Length(inner) => ExpressionView::Length(
            match inner {
                Some(e) => Some(Box::new(expression_view(*e))),
                None => None,
            },
        ),
        Expression::Substr { string, start, length } => ExpressionView::Substr {
            string: Box::new(expression_view(*string)),
            start: Box::new(expression_view(*start)),
            length: match length {
                Some(e) => Some(Box::new(expression_view(*e))),
                None => None,
            },
        },
        Expression::Concatenation { left, right } => ExpressionView::Concatenation {
            left: Box::new(expression_view(*left)),
            right: Box::new(expression_view(*right)),
        },
        Expression::Infix { left, operator, right } => ExpressionView::Infix {
            left: Box::new(expression_view(*left)),
            operator: operator.kind,
            right: Box::new(expression_view(*right)),
        },
    }
}

/// The views of the expressions of a list.
pub open spec fn expressions_view(es: Seq<Expression>) -> Seq<ExpressionView> {
    Seq::new(es.len(), |i: int| expression_view(es[i]))
}

/// The view of a statement.
pub open spec fn statement_view(s: Statement) -> StatementView
    decreases s,
{
    match s {
        Statement::Print(es) => StatementView::Print(expressions_view(es@)),
        Statement::Printf(es) => StatementView::Printf(expressions_view(es@)),
        Statement::Gsub { pattern, replacement } => StatementView::Gsub {
            pattern: expression_view(pattern),
            replacement: expression_view(replacement),
        },
        Statement::Assignment { identifier, value } => StatementView::Assignment {
            identifier: identifier@,
            value: expression_view(value),
        },
        Statement::FieldAssignment { field, value } => StatementView::FieldAssignment {
            field: expression_view(field),
            value: expression_view(value),
        },
        Statement::AddAssignment { identifier, value } => StatementView::AddAssignment {
            identifier: identifier@,
            value: expression_view(value),
        },
        Statement::PreIncrement { identifier } => StatementView::PreIncrement {
            identifier: identifier@,
        },
        Statement::PostIncrement { identifier } => StatementView::PostIncrement {
            identifier: identifier@,
        },
        Statement::If { condition, then_statements } => StatementView::If {
            condition: expression_view(condition),
            then_statements: statements_view(then_statements),
        },
        Statement::While { condition, statements } => StatementView::While {
            condition: expression_view(condition),
            statements: statements_view(statements),
        },
        Statement::For { init, condition, update, statements } => StatementView::For {
            init: Box::new(statement_view(*init)),
            condition: expression_view(condition),
            update: Box::new(statement_view(*update)),
            statements: statements_view(statements),
        },
        Statement::Exit => StatementView::Exit,
        Statement::ArrayAssignment { identifier, index, value } => StatementView::ArrayAssignment {
            identifier: identifier@,
            index: expression_view(index),
            value: expression_view(value),
        },
        Statement::ArrayAddAssignment {
            identifier,
            index,
            value,
        } => StatementView::ArrayAddAssignment {
            identifier: identifier@,
            index: expression_view(index),
            value: expression_view(value),
        },
    }
}

/// The views of the statements of a list.
pub open spec fn statements_view(ss: Vec<Statement>) -> Seq<StatementView>
    decreases ss,
{
    Seq::new(
        ss@.len(),
        |i: int|
            if 0 <= i < ss@.len() {
                statement_view(ss@[i])
            } else {
                StatementView::Exit
            },
    )
}

/// Whether the operator token `t` is as a parser of the script `input`
/// leaves it in a tree: its literal is the text of its kind, and that text
/// stands in the script at its offset.
pub open spec fn token_stands(input: Seq<char>, t: TokenView) -> bool {
    t.literal == kind_text(t.kind) && occurs_at(input, t.literal, t.offset as int)
}

/// Whether every operator token in `e` is as a parser of the script `input`
/// leaves it.
pub open spec fn expression_stands(input: Seq<char>, e: Expression) -> bool
    decreases e,
{
    match e {
        Expression::Field(inner) => expression_stands(input, *inner),
        Expression::ArrayAccess { identifier, index } => expression_stands(input, *index),
        Expression::Length(Some(inner)) => expression_stands(input, *inner),
        Expression::Substr { string, start, length } => expression_stands(input, *string)
            && expression_stands(input, *start) && match length {
            Some(l) => expression_stands(input, *l),
            None => true,
        },
        Expression::Concatenation { left, right } => expression_stands(input, *left)
            && expression_stands(input, *right),
        Expression::Infix { left, operator, right } => token_stands(input, operator@)
            && expression_stands(input, *left) && expression_stands(input, *right),
        _ => true,
    }
}

/// [`expression_stands`], of every expression of a list.
pub open spec fn expressions_stand(input: Seq<char>, es: Seq<Expression>) -> bool {
    forall|i: int| 0 <= i < es.len() ==> expression_stands(input, #[trigger] es[i])
}

/// Whether every operator token in `s` is as a parser of the script `input`
/// leaves it.
pub open spec fn statement_stands(input: Seq<char>, s: Statement) -> bool
    decreases s,
{
    match s {
        Statement::Print(es) => expressions_stand(input, es@),
        Statement::Printf(es) => expressions_stand(input, es@),
        Statement::Gsub { pattern, replacement } => expression_stands(input, pattern)
            && expression_stands(input, replacement),
        Statement::Assignment { identifier, value } => expression_stands(input, value),
        Statement::FieldAssignment { field, value } => expression_stands(input, field)
            && expression_stands(input, value),
        Statement::AddAssignment { identifier, value } => expression_stands(input, value),
        Statement::If { condition, then_statements } => expression_stands(input, condition)
            && statements_stand(input, then_statements),
        Statement::While { condition, statements } => expression_stands(input, condition)
            && statements_stand(input, statements),
        Statement::For { init, condition, update, statements } => statement_stands(input, *init)
            && expression_stands(input, condition) && statement_stands(input, *update)
            && statements_stand(input, statements),
        Statement::ArrayAssignment { identifier, index, value } => expression_stands(input, index)
            && expression_stands(input, value),
        Statement::ArrayAddAssignment { identifier, index, value } => expression_stands(
            input,
            index,
        ) && expression_stands(input, value),
        _ => true,
    }
}

/// [`statement_stands`], of every statement of a list.
pub open spec fn statements_stand(input: Seq<char>, ss: Vec<Statement>) -> bool
    decreases ss,
{
    forall|i: int| 0 <= i < ss@.len() ==> statement_stands(input, #[trigger] ss@[i])
}

/// Whether every operator token in `r` is as a parser of the script `input`
/// leaves it.
pub open spec fn rule_stands(input: Seq<char>, r: Rule) -> bool {
    match r {
        Rule::Begin(a) => statements_stand(input, a.statements),
        Rule::End(a) => statements_stand(input, a.statements),
        Rule::Action(a) => statements_stand(input, a.statements),
        Rule::PatternAction { pattern, action } => (match pattern {
            Some(e) => expression_stands(input, e),
            None => true,
        }) && (match action {
            Some(a) => statements_stand(input, a.statements),
            None => true,
        }),
    }
}

/// [`rule_stands`], of every rule of a list.
pub open spec fn rules_stand(input: Seq<char>, rs: Seq<Rule>) -> bool {
    forall|i: int| 0 <= i < rs.len() ==> rule_stands(input, #[trigger] rs[i])
}

/// The view of a rule.
pub open spec fn rule_view(r: Rule) -> RuleView {
    match r {
        Rule::Begin(a) => RuleView::Begin(a@),
        Rule::End(a) => RuleView::End(a@),
        Rule::Action(a) => RuleView::Action(a@),
        Rule::PatternAction { pattern, action } => RuleView::PatternAction {
            pattern: match pattern {
                Some(e) => Some(e@),
                None => None,
            },
            action: match action {
                Some(a) => Some(a@),
                None => None,
            },
        },
    }
}

/// The views of the rules of a list.
pub open spec fn rules_view(rs: Seq<Rule>) -> Seq<RuleView> {
    Seq::new(rs.len(), |i: int| rule_view(rs[i]))
}

impl View for Expression {
    type V = ExpressionView;

    open spec fn view(&self) -> ExpressionView {
        expression_view(*self)
    }
}

impl View for Statement {
    type V = StatementView;

    open spec fn view(&self) -> StatementView {
        statement_view(*self)
    }
}

impl View for Action {
    type V = ActionView;

    open spec fn view(&self) -> ActionView {
        ActionView { statements: statements_view(self.statements) }
    }
}

impl View for Rule {
    type V = RuleView;

    open spec fn view(&self) -> RuleView {
        rule_view(*self)
    }
}

impl View for Program {
    type V = ProgramView;

    closed spec fn view(&self) -> ProgramView {
        ProgramView {
            begin_blocks: rules_view(self.begin_blocks@),
            rules: rules_view(self.rules@),
            end_blocks: rules_view(self.end_blocks@),
        }
    }
}

impl Expression {
    /// A copy of this expression.
    pub fn duplicate(&self) -> (r: Expression)
        ensures
            r@ == self@,
            forall|input: Seq<char>|
                expression_stands(input, *self) ==> #[trigger] expression_stands(input, r),
        decreases self,
    {
        let r = match self {
            Expression::Number(n) => Expression::Number(*n),
            Expression::String(s) => Expression::String(s.clone()),
            Expression::Regex(s) => Expression::Regex(s.clone()),
            Expression::Field(inner) => Expression::Field(Box::new(inner.duplicate())),
            Expression::Identifier(s) => Expression::Identifier(s.clone()),
            Expression::ArrayAccess { identifier, index } => Expression::ArrayAccess {
                identifier: identifier.clone(),
                index: Box::new(index.duplicate()),
            },
            Expression::Length(inner) => Expression::Length(
                match inner {
                    Some(e) => Some(Box::new(e.duplicate())),
                    None => None,
                },
            ),
            Expression::Substr { string, start, length } => Expression::Substr {
                string: Box::new(string.duplicate()),
                start: Box::new(start.duplicate()),
                length: match length {
                    Some(e) => Some(Box::new(e.duplicate())),
                    None => None,
                },
            },
            Expression::Concatenation { left, right } => Expression::Concatenation {
                left: Box::new(left.duplicate()),
                right: Box::new(right.duplicate()),
            },
            Expression::Infix { left, operator, right } => Expression::Infix {
                left: Box::new(left.duplicate()),
                operator: operator.duplicate(),
                right: Box::new(right.duplicate()),
            },
        };
        assert forall|input: Seq<char>| expression_stands(input, *self) implies expression_stands(
            input,
            r,
        ) by {
            match (self, r) {
                (Expression::Field(a), Expression::Field(b)) => {
                    assert(expression_stands(input, **a));
                    assert(expression_stands(input, *b));
                },
                (
                    Expression::ArrayAccess { identifier, index: a },
                    Expression::ArrayAccess { identifier: i2, index: b },
                ) => {
                    assert(expression_stands(input, **a));
                    assert(expression_stands(input, *b));
                },
                (Expression::Length(Some(a)), Expression::Length(Some(b))) => {
                    assert(expression_stands(input, **a));
                    assert(expression_stands(input, *b));
                },
                (
                    Expression::Substr { string: a1, start: a2, length: a3 },
                    Expression::Substr { string: b1, start: b2, length: b3 },
                ) => {
                    assert(expression_stands(input, **a1));
                    assert(expression_stands(input, *b1));
                    assert(expression_stands(input, **a2));
                    assert(expression_stands(input, *b2));
                    match (a3, b3) {
                        (Some(a), Some(b)) => {
                            assert(expression_stands(input, **a));
                            assert(expression_stands(input, *b));
                        },
                        _ => {},
                    }
                },
                (
                    Expression::Concatenation { left: a1, right: a2 },
                    Expression::Concatenation { left: b1, right: b2 },
                ) => {
                    assert(expression_stands(input, **a1));
                    assert(expression_stands(input, *b1));
                    assert(expression_stands(input, **a2));
                    assert(expression_stands(input, *b2));
                },
                (
                    Expression::Infix { left: a1, operator: o1, right: a2 },
                    Expression::Infix { left: b1, operator: o2, right: b2 },
                ) => {
                    assert(o1@ == o2@);
                    assert(expression_stands(input, **a1));
                    assert(expression_stands(input, *b1));
                    assert(expression_stands(input, **a2));
                    assert(expression_stands(input, *b2));
                },
                _ => {},
            }
        }
        r
    }
}

impl Program {
    /// Whether every operator token in the program is as a parser of the
    /// script `input` leaves it.
    pub closed spec fn stands(&self, input: Seq<char>) -> bool {
        rules_stand(input, self.begin_blocks@) && rules_stand(input, self.rules@) && rules_stand(
            input,
            self.end_blocks@,
        )
    }

    /// A program without rules.
    pub fn new() -> (p: Program)
        ensures
            forall|input: Seq<char>| #[trigger] p.stands(input),
            p@ == (ProgramView {
                begin_blocks: Seq::empty(),
                rules: Seq::empty(),
                end_blocks: Seq::empty(),
            }),
    {
        let p = Program { begin_blocks: Vec::new(), rules: Vec::new(), end_blocks: Vec::new() };
        assert(p@.begin_blocks =~= Seq::empty());
        assert(p@.rules =~= Seq::empty());
        assert(p@.end_blocks =~= Seq::empty());
        p
    }

    /// Appends `rule` to the `BEGIN` blocks.
    pub fn add_begin_block(&mut self, rule: Rule)
        ensures
            forall|input: Seq<char>|
                old(self).stands(input) && rule_stands(input, rule) ==> #[trigger] final(self).stands(
                    input,
                ),
            final(self)@ == (ProgramView {
                begin_blocks: old(self)@.begin_blocks.push(rule@),
                ..old(self)@
            }),
    {
        self.begin_blocks.push(rule);
        assert(self@.begin_blocks =~= old(self)@.begin_blocks.push(rule@));
    }

    /// Appends `rule` to the rules that run for the records.
    pub fn add_rule(&mut self, rule: Rule)
        ensures
            forall|input: Seq<char>|
                old(self).stands(input) && rule_stands(input, rule) ==> #[trigger] final(self).stands(
                    input,
                ),
            final(self)@ == (ProgramView { rules: old(self)@.rules.push(rule@), ..old(self)@ }),
    {
        self.rules.push(rule);
        assert(self@.rules =~= old(self)@.rules.push(rule@));
    }

    /// Appends `rule` to the `END` blocks.
    pub fn add_end_block(&mut self, rule: Rule)
        ensures
            forall|input: Seq<char>|
                old(self).stands(input) && rule_stands(input, rule) ==> #[trigger] final(self).stands(
                    input,
                ),
            final(self)@ == (ProgramView {
                end_blocks: old(self)@.end_blocks.push(rule@),
                ..old(self)@
            }),
    {
        self.end_blocks.push(rule);
        assert(self@.end_blocks =~= old(self)@.end_blocks.push(rule@));
    }

    /// The number of rules of the program, of all three sorts.
    pub fn len(&self) -> (n: usize)
        requires
            self@.begin_blocks.len() + self@.rules.len() + self@.end_blocks.len() <= usize::MAX,
        ensures
            n == self@.begin_blocks.len() + self@.rules.len() + self@.end_blocks.len(),
    {
        self.begin_blocks.len() + self.rules.len() + self.end_blocks.len()
    }

    /// The `BEGIN` blocks, in the order of the script.
    pub fn begin_blocks(&self) -> (rules: &Vec<Rule>)
        ensures
            rules_view(rules@) == self@.begin_blocks,
            forall|input: Seq<char>| self.stands(input) ==> #[trigger] rules_stand(input, rules@),
    {
        &self.begin_blocks
    }

    /// The rules that run for the records, in the order of the script.
    pub fn rules(&self) -> (rules: &Vec<Rule>)
        ensures
            rules_view(rules@) == self@.rules,
            forall|input: Seq<char>| self.stands(input) ==> #[trigger] rules_stand(input, rules@),
    {
        &self.rules
    }

    /// The `END` blocks, in the order of the script.
    pub fn end_blocks(&self) -> (rules: &Vec<Rule>)
        ensures
            rules_view(rules@) == self@.end_blocks,
            forall|input: Seq<char>| self.stands(input) ==> #[trigger] rules_stand(input, rules@),
    {
        &self.end_blocks
    }
}

/// Whether two optional expressions stand for the same tree.
fn same_optional(a: &Option<Box<Expression>>, b: &Option<Box<Expression>>) -> (r: bool)
    ensures
        r == (match (*a, *b) {
            (Some(x), Some(y)) => x@ == y@,
            (None, None) => true,
            _ => false,
        }),
    decreases a,
{
    match (a, b) {
        (Some(x), Some(y)) => x.same_tree(y),
        (None, None) => true,
        _ => false,
    }
}

/// Whether two lists of expressions stand for the same trees.
pub fn same_expressions(a: &Vec<Expression>, b: &Vec<Expression>) -> (r: bool)
    ensures
        r == (expressions_view(a@) == expressions_view(b@)),
{
    if a.len() != b.len() {
        assert(expressions_view(a@).len() != expressions_view(b@).len());
        return false;
    }
    let mut i: usize = 0;
    while i < a.len()
        invariant
            i <= a.len(),
            a.len() == b.len(),
            forall|k: int| 0 <= k < i ==> a@[k]@ == b@[k]@,
        decreases a.len() - i,
    {
        if !a[i].same_tree(&b[i]) {
            assert(expressions_view(a@)[i as int] != expressions_view(b@)[i as int]);
            return false;
        }
        i += 1;
    }
    assert(expressions_view(a@) =~= expressions_view(b@));
    true
}

/// Whether two lists of statements stand for the same trees.
pub fn same_statements(a: &Vec<Statement>, b: &Vec<Statement>) -> (r: bool)
    ensures
        r == (statements_view(*a) == statements_view(*b)),
    decreases a,
{
    if a.len() != b.len() {
        assert(statements_view(*a).len() != statements_view(*b).len());
        return false;
    }
    let mut i: usize = 0;
    while i < a.len()
        invariant
            i <= a.len(),
            a.len() == b.len(),
            forall|k: int| 0 <= k < i ==> a@[k]@ == b@[k]@,
        decreases a.len() - i,
    {
        if !a[i].same_tree(&b[i]) {
            assert(statements_view(*a)[i as int] != statements_view(*b)[i as int]);
            return false;
        }
        i += 1;
    }
    assert(statements_view(*a) =~= statements_view(*b));
    true
}

/// Whether two lists of rules stand for the same trees.
pub fn same_rules(a: &Vec<Rule>, b: &Vec<Rule>) -> (r: bool)
    ensures
        r == (rules_view(a@) == rules_view(b@)),
{
    if a.len() != b.len() {
        assert(rules_view(a@).len() != rules_view(b@).len());
        return false;
    }
    let mut i: usize = 0;
    while i < a.len()
        invariant
            i <= a.len(),
            a.len() == b.len(),
            forall|k: int| 0 <= k < i ==> a@[k]@ == b@[k]@,
        decreases a.len() - i,
    {
        if !a[i].same_tree(&b[i]) {
            assert(rules_view(a@)[i as int] != rules_view(b@)[i as int]);
            return false;
        }
        i += 1;
    }
    assert(rules_view(a@) =~= rules_view(b@));
    true
}

impl Expression {
    /// Whether this expression and `other` stand for the same tree: they
    /// differ at most in where their operators stood in the script.
    pub fn same_tree(&self, other: &Expression) -> (r: bool)
        ensures
            r == (self@ == other@),
        decreases self,
    {
        match (self, other) {
            (Expression::Number(a), Expression::Number(b)) => *a == *b,
            (Expression::String(a), Expression::String(b)) => *a == *b,
            (Expression::Regex(a), Expression::Regex(b)) => *a == *b,
            (Expression::Field(a), Expression::Field(b)) => a.same_tree(b),
            (Expression::Identifier(a), Expression::Identifier(b)) => *a == *b,
            (
                Expression::ArrayAccess { identifier: a, index: i },
                Expression::ArrayAccess { identifier: b, index: j },
            ) => *a == *b && i.same_tree(j),
            (Expression::Length(a), Expression::Length(b)) => same_optional(a, b),
            (
                Expression::Substr { string: a, start: s, length: l },
                Expression::Substr { string: b, start: t, length: m },
            ) => a.same_tree(b) && s.same_tree(t) && same_optional(l, m),
            (
                Expression::Concatenation { left: a, right: c },
                Expression::Concatenation { left: b, right: d },
            ) => a.same_tree(b) && c.same_tree(d),
            (
                Expression::Infix { left: a, operator: o, right: c },
                Expression::Infix { left: b, operator: p, right: d },
            ) => o.kind == p.kind && a.same_tree(b) && c.same_tree(d),
            _ => false,
        }
    }
}

impl Statement {
    /// Whether this statement and `other` stand for the same tree.
    pub fn same_tree(&self, other: &Statement) -> (r: bool)
        ensures
            r == (self@ == other@),
        decreases self,
    {
        match (self, other) {
            (Statement::Print(a), Statement::Print(b)) => same_expressions(a, b),
            (Statement::Printf(a), Statement::Printf(b)) => same_expressions(a, b),
            (
                Statement::Gsub { pattern: a, replacement: c },
                Statement::Gsub { pattern: b, replacement: d },
            ) => a.same_tree(b) && c.same_tree(d),
            (
                Statement::Assignment { identifier: a, value: c },
                Statement::Assignment { identifier: b, value: d },
            ) => *a == *b && c.same_tree(d),
            (
                Statement::FieldAssignment { field: a, value: c },
                Statement::FieldAssignment { field: b, value: d },
            ) => a.same_tree(b) && c.same_tree(d),
            (
                Statement::AddAssignment { identifier: a, value: c },
                Statement::AddAssignment { identifier: b, value: d },
            ) => *a == *b && c.same_tree(d),
            (
                Statement::PreIncrement { identifier: a },
                Statement::PreIncrement { identifier: b },
            ) => *a == *b,
            (
                Statement::PostIncrement { identifier: a },
                Statement::PostIncrement { identifier: b },
            ) => *a == *b,
            (
                Statement::If { condition: a, then_statements: c },
                Statement::If { condition: b, then_statements: d },
            ) => a.same_tree(b) && same_statements(c, d),
            (
                Statement::While { condition: a, statements: c },
                Statement::While { condition: b, statements: d },
            ) => a.same_tree(b) && same_statements(c, d),
            (
                Statement::For { init: a, condition: c, update: e, statements: g },
                Statement::For { init: b, condition: d, update: f, statements: h },
            ) => a.same_tree(b) && c.same_tree(d) && e.same_tree(f) && same_statements(g, h),
            (Statement::Exit, Statement::Exit) => true,
            (
                Statement::ArrayAssignment { identifier: a, index: c, value: e },
                Statement::ArrayAssignment { identifier: b, index: d, value: f },
            ) => *a == *b && c.same_tree(d) && e.same_tree(f),
            (
                Statement::ArrayAddAssignment { identifier: a, index: c, value: e },
                Statement::ArrayAddAssignment { identifier: b, index: d, value: f },
            ) => *a == *b && c.same_tree(d) && e.same_tree(f),
            _ => false,
        }
    }
}

impl Action {
    /// Whether this action and `other` stand for the same tree.
    pub fn same_tree(&self, other: &Action) -> (r: bool)
        ensures
            r == (self@ == other@),
    {
        same_statements(&self.statements, &other.statements)
    }
}

/// Whether two optional actions stand for the same tree.
fn same_action(a: &Option<Action>, b: &Option<Action>) -> (r: bool)
    ensures
        r == (match (*a, *b) {
            (Some(x), Some(y)) => x@ == y@,
            (None, None) => true,
            _ => false,
        }),
{
    match (a, b) {
        (Some(x), Some(y)) => x.same_tree(y),
        (None, None) => true,
        _ => false,
    }
}

/// Whether two optional patterns stand for the same tree.
fn same_pattern(a: &Option<Expression>, b: &Option<Expression>) -> (r: bool)
    ensures
        r == (match (*a, *b) {
            (Some(x), Some(y)) => x@ == y@,
            (None, None) => true,
            _ => false,
        }),
{
    match (a, b) {
        (Some(x), Some(y)) => x.same_tree(y),
        (None, None) => true,
        _ => false,
    }
}

impl Rule {
    /// Whether this rule and `other` stand for the same tree.
    pub fn same_tree(&self, other: &Rule) -> (r: bool)
        ensures
            r == (self@ == other@),
    {
        match (self, other) {
            (Rule::Begin(a), Rule::Begin(b)) => a.same_tree(b),
            (Rule::End(a), Rule::End(b)) => a.same_tree(b),
            (Rule::Action(a), Rule::Action(b)) => a.same_tree(b),
            (
                Rule::PatternAction { pattern: a, action: c },
                Rule::PatternAction { pattern: b, action: d },
            ) => same_pattern(a, b) && same_action(c, d),
            _ => false,
        }
    }
}

impl Program {
    /// Whether this program and `other` stand for the same tree: they
    /// differ at most in where their operators stood in the script.
    pub fn same_tree(&self, other: &Program) -> (r: bool)
        ensures
            r == (self@ == other@),
    {
        same_rules(&self.begin_blocks, &other.begin_blocks) && same_rules(
            &self.rules,
            &other.rules,
        ) && same_rules(&self.end_blocks, &other.end_blocks)
    }
}

} // verus!
