//! Statements.
use vstd::prelude::*;
use crate::lexer::token::{Token, TokenView, tokens_view};
use crate::ast::expr::{Expr, ExprView, expr_view};

verus! {

/// A statement of the language.
#[derive(Debug)]
pub enum Statement {
    Expression { expression: Expr },
    If { condition: Expr, then_branch: Box<Statement>, else_branch: Option<Box<Statement>> },
    Print { expression: Expr },
    Var { name: Token, initializer: Option<Expr> },
    While { condition: Expr, body: Box<Statement> },
    Block { statements: Vec<Statement> },
    Function { name: Token, params: Vec<Token>, body: Vec<Statement>, is_getter: bool },
    Return { keyword: Token, value: Option<Expr> },
    Class {
        name: Token,
        superclass: Option<Expr>,
        methods: Vec<Statement>,
        static_fields: Vec<Statement>,
        static_methods: Vec<Statement>,
    },
}

/// The mathematical view of a statement.
pub enum StatementView {
    Expression { expression: ExprView },
    If { condition: ExprView, then_branch: Box<StatementView>, else_branch: Option<Box<StatementView>> },
    Print { expression: ExprView },
    Var { name: TokenView, initializer: Option<ExprView> },
    While { condition: ExprView, body: Box<StatementView> },
    Block { statements: Seq<StatementView> },
    Function { name: TokenView, params: Seq<TokenView>, body: Seq<StatementView>, is_getter: bool },
    Return { keyword: TokenView, value: Option<ExprView> },
    Class {
        name: TokenView,
        superclass: Option<ExprView>,
        methods: Seq<StatementView>,
        static_fields: Seq<StatementView>,
        static_methods: Seq<StatementView>,
    },
}

/// The view of an optional expression.
pub open spec fn opt_expr_view(e: Option<Expr>) -> Option<ExprView>
    decreases e,
{
    match e {
        Some(x) => Some(expr_view(x)),
        None => None,
    }
}

/// The view of a statement.
pub open spec fn statement_view(s: Statement) -> StatementView
    decreases s,
{
    match s {
        Statement::Expression { expression } => StatementView::Expression { expression: expr_view(expression) },
        Statement::If { condition, then_branch, else_branch } => StatementView::If {
            condition: expr_view(condition),
            then_branch: Box::new(statement_view(*then_branch)),
            else_branch: match else_branch {
                Some(b) => Some(Box::new(statement_view(*b))),
                None => None,
            },
        },
        Statement::Print { expression } => StatementView::Print { expression: expr_view(expression) },
        Statement::Var { name, initializer } => StatementView::Var {
            name: name@,
            initializer: opt_expr_view(initializer),
        },
        Statement::While { condition, body } => StatementView::While {
            condition: expr_view(condition),
            body: Box::new(statement_view(*body)),
        },
        Statement::Block { statements } => StatementView::Block { statements: statements_view(statements@) },
        Statement::Function { name, params, body, is_getter } => StatementView::Function {
            name: name@,
            params: tokens_view(params@),
            body: statements_view(body@),
            is_getter,
        },
        Statement::Return { keyword, value } => StatementView::Return {
            keyword: keyword@,
            value: opt_expr_view(value),
        },
        Statement::Class { name, superclass, methods, static_fields, static_methods } => StatementView::Class {
            name: name@,
            superclass: opt_expr_view(superclass),
            methods: statements_view(methods@),
            static_fields: statements_view(static_fields@),
            static_methods: statements_view(static_methods@),
        },
    }
}

/// The views of a sequence of statements.
pub open spec fn statements_view(ss: Seq<Statement>) -> Seq<StatementView>
    decreases ss,
{
    if ss.len() == 0 {
        Seq::empty()
    } else {
        statements_view(ss.subrange(0, ss.len() - 1)).push(statement_view(ss[ss.len() - 1]))
    }
}

/// Viewing a sequence with one more statement at its end.
pub proof fn lemma_statements_view_push(ss: Seq<Statement>, s: Statement)
    ensures
        statements_view(ss.push(s)) == statements_view(ss).push(statement_view(s)),
{
    assert(ss.push(s).subrange(0, ss.len() as int) =~= ss);
}

/// The view of a sequence of statements has one element per statement.
pub proof fn lemma_statements_view_index(ss: Seq<Statement>)
    ensures
        statements_view(ss).len() == ss.len(),
        forall|i: int| 0 <= i < ss.len() ==> #[trigger] statements_view(ss)[i] == statement_view(ss[i]),
    decreases ss.len(),
{
    if ss.len() > 0 {
        lemma_statements_view_index(ss.subrange(0, ss.len() - 1));
    }
}

impl View for Statement {
    type V = StatementView;

    open spec fn view(&self) -> StatementView {
        statement_view(*self)
    }
}

} // verus!
