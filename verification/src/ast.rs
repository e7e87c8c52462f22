//! The syntax tree of a Molang program.
use crate::text::texts;
use vstd::prelude::*;

verus! {

#[derive(Debug, Clone, Copy, PartialEq, Eq, Structural)]
pub enum BinaryOp {
    Add,
    Sub,
    Mul,
    Div,
    Less,
    LessEqual,
    Greater,
    GreaterEqual,
    Equal,
    NotEqual,
    And,
    Or,
    NullCoalesce,
}

#[derive(Debug, Clone, Copy, PartialEq, Eq, Structural)]
pub enum UnaryOp {
    Plus,
    Minus,
    Not,
}

#[derive(Debug, Clone, Copy, PartialEq, Eq, Structural)]
pub enum ControlFlowExpr {
    Break,
    Continue,
}

/// One named field of a struct literal.
#[derive(Debug, PartialEq)]
pub struct ExprField {
    pub name: String,
    pub value: Expr,
}

/// Expression tree. A number is kept as the decimal literal that was
/// written; the fields of a struct literal are kept in the order written.
#[derive(Debug, PartialEq)]
#[allow(inconsistent_fields)]
pub enum Expr {
    Number(String),
    Path(Vec<String>),
    String(String),
    Array(Vec<Expr>),
    Struct(Vec<ExprField>),
    Unary { op: UnaryOp, expr: Box<Expr> },
    Binary { op: BinaryOp, left: Box<Expr>, right: Box<Expr> },
    Conditional { condition: Box<Expr>, then_branch: Box<Expr>, else_branch: Option<Box<Expr>> },
    Call { target: Box<Expr>, args: Vec<Expr> },
    Flow(ControlFlowExpr),
    Index { target: Box<Expr>, index: Box<Expr> },
}

/// Executable unit of a program.
#[derive(Debug, PartialEq)]
pub enum Statement {
    /// Expression-only statement.
    Expr(Expr),
    /// Path assignment.
    Assignment { target: Vec<String>, value: Expr },
    /// Nested block with its own statements.
    Block(Vec<Statement>),
    /// `loop(count, expr_or_block)`
    Loop { count: Expr, body: Box<Statement> },
    /// `for_each(variable, collection, expr_or_block)`
    ForEach { variable: Vec<String>, collection: Expr, body: Box<Statement> },
    /// `return <expr?>`
    Return(Option<Expr>),
}

/// Full program consisting of zero or more statements.
#[derive(Debug, PartialEq)]
pub struct Program {
    pub statements: Vec<Statement>,
}

/// Whether a `break` or `continue` stands in the expression, outside any
/// array or struct literal.
pub open spec fn has_flow(e: Expr) -> bool
    decreases e,
{
    match e {
        Expr::Number(_) | Expr::Path(_) | Expr::String(_) | Expr::Array(_) | Expr::Struct(_) => false,
        Expr::Unary { expr, .. } => has_flow(*expr),
        Expr::Binary { left, right, .. } => has_flow(*left) || has_flow(*right),
        Expr::Conditional { condition, then_branch, else_branch } => has_flow(*condition) || has_flow(
            *then_branch,
        ) || match else_branch {
            Some(branch) => has_flow(*branch),
            None => false,
        },
        Expr::Call { target, args } => has_flow(*target) || exists|i: int|
            0 <= i < args.len() && has_flow(#[trigger] args[i]),
        Expr::Index { target, index } => has_flow(*target) || has_flow(*index),
        Expr::Flow(_) => true,
    }
}

/// Whether the expression is made of numbers, paths, operators and calls
/// alone.
pub open spec fn is_pure(e: Expr) -> bool
    decreases e,
{
    match e {
        Expr::Number(_) | Expr::Path(_) => true,
        Expr::Unary { expr, .. } => is_pure(*expr),
        Expr::Binary { left, right, .. } => is_pure(*left) && is_pure(*right),
        Expr::Conditional { condition, then_branch, else_branch } => is_pure(*condition) && is_pure(
            *then_branch,
        ) && match else_branch {
            Some(branch) => is_pure(*branch),
            None => true,
        },
        Expr::Call { target, args } => is_pure(*target) && forall|i: int|
            0 <= i < args.len() ==> is_pure(#[trigger] args[i]),
        Expr::String(_) | Expr::Array(_) | Expr::Struct(_) | Expr::Index { .. } | Expr::Flow(_) => false,
    }
}

/// Whether a program is one pure expression, which can be compiled once
/// and kept.
pub open spec fn is_single_expression(program: Program) -> bool {
    program.statements.len() == 1 && match program.statements[0] {
        Statement::Expr(e) => !has_flow(e) && is_pure(e),
        _ => false,
    }
}

impl Program {
    /// Returns the single pure expression of the program, if it is one.
    pub fn as_jit_expression(&self) -> (r: Option<&Expr>)
        ensures
            r is Some == is_single_expression(*self),
            r matches Some(e) ==> self.statements[0] == Statement::Expr(*e),
    {
        if self.statements.len() == 1 {
            if let Statement::Expr(expr) = &self.statements[0] {
                if !expr.contains_flow() && expr.is_jit_compatible() {
                    return Some(expr);
                }
            }
        }
        None
    }
}

impl Expr {
    /// Returns true when the expression tree contains control-flow markers
    /// (`break`, `continue`).
    #[verifier::loop_isolation(false)]
    pub fn contains_flow(&self) -> (r: bool)
        ensures
            r == has_flow(*self),
        decreases self,
    {
        match self {
            Expr::Number(_) | Expr::Path(_) | Expr::String(_) | Expr::Array(_) | Expr::Struct(_) => false,
            Expr::Unary { expr, .. } => expr.contains_flow(),
            Expr::Binary { left, right, .. } => left.contains_flow() || right.contains_flow(),
            Expr::Conditional { condition, then_branch, else_branch } => {
                condition.contains_flow() || then_branch.contains_flow() || match else_branch {
                    Some(branch) => branch.contains_flow(),
                    None => false,
                }
            },
            Expr::Call { target, args } => {
                if target.contains_flow() {
                    return true;
                }
                let mut i: usize = 0;
                while i < args.len()
                    invariant
                        i <= args.len(),
                        forall|k: int| 0 <= k < i ==> !has_flow(#[trigger] args[k]),
                    decreases args.len() - i,
                {
                    if args[i].contains_flow() {
                        return true;
                    }
                    i += 1;
                }
                false
            },
            Expr::Index { target, index } => target.contains_flow() || index.contains_flow(),
            Expr::Flow(_) => true,
        }
    }

    /// Determines if the expression is a pure expression suitable for
    /// caching.
    #[verifier::loop_isolation(false)]
    pub fn is_jit_compatible(&self) -> (r: bool)
        ensures
            r == is_pure(*self),
        decreases self,
    {
        match self {
            Expr::Number(_) | Expr::Path(_) => true,
            Expr::Unary { expr, .. } => expr.is_jit_compatible(),
            Expr::Binary { left, right, .. } => left.is_jit_compatible() && right.is_jit_compatible(),
            Expr::Conditional { condition, then_branch, else_branch } => {
                condition.is_jit_compatible() && then_branch.is_jit_compatible() && match else_branch {
                    Some(branch) => branch.is_jit_compatible(),
                    None => true,
                }
            },
            Expr::Call { target, args } => {
                if !target.is_jit_compatible() {
                    return false;
                }
                let mut i: usize = 0;
                while i < args.len()
                    invariant
                        i <= args.len(),
                        forall|k: int| 0 <= k < i ==> is_pure(#[trigger] args[k]),
                    decreases args.len() - i,
                {
                    if !args[i].is_jit_compatible() {
                        return false;
                    }
                    i += 1;
                }
                true
            },
            Expr::String(_) | Expr::Array(_) | Expr::Struct(_) | Expr::Index { .. } | Expr::Flow(_) => false,
        }
    }
}

/// What an expression is: the tree with every text and list as a value.
#[allow(inconsistent_fields)]
pub enum ExprModel {
    Number(Seq<char>),
    Path(Seq<Seq<char>>),
    Text(Seq<char>),
    Array(Seq<ExprModel>),
    Struct(Seq<(Seq<char>, ExprModel)>),
    Unary { op: UnaryOp, expr: Box<ExprModel> },
    Binary { op: BinaryOp, left: Box<ExprModel>, right: Box<ExprModel> },
    Conditional { condition: Box<ExprModel>, then_branch: Box<ExprModel>, else_branch: Option<Box<ExprModel>> },
    Call { target: Box<ExprModel>, args: Seq<ExprModel> },
    Flow(ControlFlowExpr),
    Index { target: Box<ExprModel>, index: Box<ExprModel> },
}

/// What a statement is.
pub enum StatementModel {
    Expr(ExprModel),
    Assignment { target: Seq<Seq<char>>, value: ExprModel },
    Block(Seq<StatementModel>),
    Loop { count: ExprModel, body: Box<StatementModel> },
    ForEach { variable: Seq<Seq<char>>, collection: ExprModel, body: Box<StatementModel> },
    Return(Option<ExprModel>),
}

pub open spec fn expr_model(e: Expr) -> ExprModel
    decreases e, 0nat,
{
    match e {
        Expr::Number(text) => ExprModel::Number(text@),
        Expr::Path(parts) => ExprModel::Path(texts(parts@)),
        Expr::String(text) => ExprModel::Text(text@),
        Expr::Array(items) => ExprModel::Array(expr_models(items, items.len() as nat)),
        Expr::Struct(fields) => ExprModel::Struct(field_models(fields, fields.len() as nat)),
        Expr::Unary { op, expr } => ExprModel::Unary { op, expr: Box::new(expr_model(*expr)) },
        Expr::Binary { op, left, right } => ExprModel::Binary {
            op,
            left: Box::new(expr_model(*left)),
            right: Box::new(expr_model(*right)),
        },
        Expr::Conditional { condition, then_branch, else_branch } => ExprModel::Conditional {
            condition: Box::new(expr_model(*condition)),
            then_branch: Box::new(expr_model(*then_branch)),
            else_branch: match else_branch {
                Some(branch) => Some(Box::new(expr_model(*branch))),
                None => None,
            },
        },
        Expr::Call { target, args } => ExprModel::Call {
            target: Box::new(expr_model(*target)),
            args: expr_models(args, args.len() as nat),
        },
        Expr::Flow(flow) => ExprModel::Flow(flow),
        Expr::Index { target, index } => ExprModel::Index {
            target: Box::new(expr_model(*target)),
            index: Box::new(expr_model(*index)),
        },
    }
}

/// The models of the first `n` expressions.
pub open spec fn expr_models(items: Vec<Expr>, n: nat) -> Seq<ExprModel>
    decreases items, n,
{
    if n == 0 || n > items.len() {
        Seq::empty()
    } else {
        expr_models(items, (n - 1) as nat).push(expr_model(items[n - 1]))
    }
}

/// The models of the first `n` fields.
pub open spec fn field_models(fields: Vec<ExprField>, n: nat) -> Seq<(Seq<char>, ExprModel)>
    decreases fields, n,
{
    if n == 0 || n > fields.len() {
        Seq::empty()
    } else {
        field_models(fields, (n - 1) as nat).push((fields[n - 1].name@, expr_model(fields[n - 1].value)))
    }
}

pub open spec fn statement_model(s: Statement) -> StatementModel
    decreases s, 0nat,
{
    match s {
        Statement::Expr(e) => StatementModel::Expr(expr_model(e)),
        Statement::Assignment { target, value } => StatementModel::Assignment {
            target: texts(target@),
            value: expr_model(value),
        },
        Statement::Block(list) => StatementModel::Block(statement_models(list, list.len() as nat)),
        Statement::Loop { count, body } => StatementModel::Loop {
            count: expr_model(count),
            body: Box::new(statement_model(*body)),
        },
        Statement::ForEach { variable, collection, body } => StatementModel::ForEach {
            variable: texts(variable@),
            collection: expr_model(collection),
            body: Box::new(statement_model(*body)),
        },
        Statement::Return(value) => StatementModel::Return(
            match value {
                Some(e) => Some(expr_model(e)),
                None => None,
            },
        ),
    }
}

/// The models of the first `n` statements.
pub open spec fn statement_models(list: Vec<Statement>, n: nat) -> Seq<StatementModel>
    decreases list, n,
{
    if n == 0 || n > list.len() {
        Seq::empty()
    } else {
        statement_models(list, (n - 1) as nat).push(statement_model(list[n - 1]))
    }
}

/// The models of a list of expressions.
pub open spec fn exprs_view(items: Seq<Expr>) -> Seq<ExprModel> {
    items.map_values(|e: Expr| expr_model(e))
}

/// The models of a list of fields.
pub open spec fn fields_view(fields: Seq<ExprField>) -> Seq<(Seq<char>, ExprModel)> {
    fields.map_values(|field: ExprField| (field.name@, expr_model(field.value)))
}

/// The models of a list of statements.
pub open spec fn statements_view(list: Seq<Statement>) -> Seq<StatementModel> {
    list.map_values(|s: Statement| statement_model(s))
}

impl View for Expr {
    type V = ExprModel;

    open spec fn view(&self) -> ExprModel {
        expr_model(*self)
    }
}

impl View for Statement {
    type V = StatementModel;

    open spec fn view(&self) -> StatementModel {
        statement_model(*self)
    }
}

impl View for Program {
    type V = Seq<StatementModel>;

    open spec fn view(&self) -> Seq<StatementModel> {
        statements_view(self.statements@)
    }
}

pub proof fn lemma_expr_models(items: Vec<Expr>, n: nat)
    requires
        n <= items.len(),
    ensures
        expr_models(items, n) == exprs_view(items@.take(n as int)),
    decreases n,
{
    if n > 0 {
        lemma_expr_models(items, (n - 1) as nat);
        assert(exprs_view(items@.take(n as int)) =~= exprs_view(items@.take(n - 1)).push(
            expr_model(items[n - 1]),
        ));
    } else {
        assert(exprs_view(items@.take(0)) =~= Seq::<ExprModel>::empty());
    }
}

pub proof fn lemma_field_models(fields: Vec<ExprField>, n: nat)
    requires
        n <= fields.len(),
    ensures
        field_models(fields, n) == fields_view(fields@.take(n as int)),
    decreases n,
{
    if n > 0 {
        lemma_field_models(fields, (n - 1) as nat);
        assert(fields_view(fields@.take(n as int)) =~= fields_view(fields@.take(n - 1)).push(
            (fields[n - 1].name@, expr_model(fields[n - 1].value)),
        ));
    } else {
        assert(fields_view(fields@.take(0)) =~= Seq::<(Seq<char>, ExprModel)>::empty());
    }
}

pub proof fn lemma_statement_models(list: Vec<Statement>, n: nat)
    requires
        n <= list.len(),
    ensures
        statement_models(list, n) == statements_view(list@.take(n as int)),
    decreases n,
{
    if n > 0 {
        lemma_statement_models(list, (n - 1) as nat);
        assert(statements_view(list@.take(n as int)) =~= statements_view(list@.take(n - 1)).push(
            statement_model(list[n - 1]),
        ));
    } else {
        assert(statements_view(list@.take(0)) =~= Seq::<StatementModel>::empty());
    }
}

/// An array and the arguments of a call are the lists of the models of
/// their parts.
pub proof fn lemma_exprs_view(items: Vec<Expr>)
    ensures
        expr_models(items, items.len() as nat) == exprs_view(items@),
{
    lemma_expr_models(items, items.len() as nat);
    assert(items@.take(items.len() as int) =~= items@);
}

/// A struct literal is the list of its fields' names and models.
pub proof fn lemma_fields_view(fields: Vec<ExprField>)
    ensures
        field_models(fields, fields.len() as nat) == fields_view(fields@),
{
    lemma_field_models(fields, fields.len() as nat);
    assert(fields@.take(fields.len() as int) =~= fields@);
}

/// A block is the list of the models of its statements.
pub proof fn lemma_statements_view(list: Vec<Statement>)
    ensures
        statement_models(list, list.len() as nat) == statements_view(list@),
{
    lemma_statement_models(list, list.len() as nat);
    assert(list@.take(list.len() as int) =~= list@);
}

} // verus!
