//! Expressions.
use vstd::prelude::*;
use crate::lexer::token::{Token, TokenView, tokens_view};
use crate::ast::statement::{Statement, StatementView, statements_view};

verus! {

/// Where a variable's binding lives: in the global scope (`Unresolved`), or
/// in the scope that many scopes out from the innermost one.
#[derive(Debug, Clone, Copy, PartialEq, Eq, Structural)]
pub enum Depth {
    Unresolved,
    Resolved(usize),
}

/// An expression of the language.
#[derive(Debug)]
pub enum Expr {
    Assign { name: Token, value: Box<Expr>, depth: Depth },
    LogicOr { left: Box<Expr>, right: Box<Expr> },
    LogicAnd { left: Box<Expr>, right: Box<Expr> },
    Binary { left: Box<Expr>, operator: Token, right: Box<Expr> },
    Literal { value: Token },
    Grouping { expression: Box<Expr> },
    Unary { operator: Token, right: Box<Expr> },
    Variable { name: Token, depth: Depth },
    Call { callee: Box<Expr>, paren: Token, arguments: Vec<Expr> },
    Get { object: Box<Expr>, name: Token },
    SetProperty { object: Box<Expr>, name: Token, value: Box<Expr> },
    This { keyword: Token, depth: Depth },
    Lambda { params: Vec<Token>, body: Vec<Statement> },
}

/// The mathematical view of an expression.
pub enum ExprView {
    Assign { name: TokenView, value: Box<ExprView>, depth: Depth },
    LogicOr { left: Box<ExprView>, right: Box<ExprView> },
    LogicAnd { left: Box<ExprView>, right: Box<ExprView> },
    Binary { left: Box<ExprView>, operator: TokenView, right: Box<ExprView> },
    Literal { value: TokenView },
    Grouping { expression: Box<ExprView> },
    Unary { operator: TokenView, right: Box<ExprView> },
    Variable { name: TokenView, depth: Depth },
    Call { callee: Box<ExprView>, paren: TokenView, arguments: Seq<ExprView> },
    Get { object: Box<ExprView>, name: TokenView },
    SetProperty { object: Box<ExprView>, name: TokenView, value: Box<ExprView> },
    This { keyword: TokenView, depth: Depth },
    Lambda { params: Seq<TokenView>, body: Seq<StatementView> },
}

/// The view of an expression.
pub open spec fn expr_view(e: Expr) -> ExprView
    decreases e,
{
    match e {
        Expr::Assign { name, value, depth } => ExprView::Assign {
            name: name@,
            value: Box::new(expr_view(*value)),
            depth,
        },
        Expr::LogicOr { left, right } => ExprView::LogicOr {
            left: Box::new(expr_view(*left)),
            right: Box::new(expr_view(*right)),
        },
        Expr::LogicAnd { left, right } => ExprView::LogicAnd {
            left: Box::new(expr_view(*left)),
            right: Box::new(expr_view(*right)),
        },
        Expr::Binary { left, operator, right } => ExprView::Binary {
            left: Box::new(expr_view(*left)),
            operator: operator@,
            right: Box::new(expr_view(*right)),
        },
        Expr::Literal { value } => ExprView::Literal { value: value@ },
        Expr::Grouping { expression } => ExprView::Grouping { expression: Box::new(expr_view(*expression)) },
        Expr::Unary { operator, right } => ExprView::Unary {
            operator: operator@,
            right: Box::new(expr_view(*right)),
        },
        Expr::Variable { name, depth } => ExprView::Variable { name: name@, depth },
        Expr::Call { callee, paren, arguments } => ExprView::Call {
            callee: Box::new(expr_view(*callee)),
            paren: paren@,
            arguments: exprs_view(arguments@),
        },
        Expr::Get { object, name } => ExprView::Get { object: Box::new(expr_view(*object)), name: name@ },
        Expr::SetProperty { object, name, value } => ExprView::SetProperty {
            object: Box::new(expr_view(*object)),
            name: name@,
            value: Box::new(expr_view(*value)),
        },
        Expr::This { keyword, depth } => ExprView::This { keyword: keyword@, depth },
        Expr::Lambda { params, body } => ExprView::Lambda {
            params: tokens_view(params@),
            body: statements_view(body@),
        },
    }
}

/// The views of a sequence of expressions.
pub open spec fn exprs_view(es: Seq<Expr>) -> Seq<ExprView>
    decreases es,
{
    if es.len() == 0 {
        Seq::empty()
    } else {
        exprs_view(es.subrange(0, es.len() - 1)).push(expr_view(es[es.len() - 1]))
    }
}

/// Viewing a sequence with one more expression at its end.
pub proof fn lemma_exprs_view_push(es: Seq<Expr>, e: Expr)
    ensures
        exprs_view(es.push(e)) == exprs_view(es).push(expr_view(e)),
{
    assert(es.push(e).subrange(0, es.len() as int) =~= es);
}

/// The view of a sequence of expressions has one element per expression.
pub proof fn lemma_exprs_view_index(es: Seq<Expr>)
    ensures
        exprs_view(es).len() == es.len(),
        forall|i: int| 0 <= i < es.len() ==> #[trigger] exprs_view(es)[i] == expr_view(es[i]),
    decreases es.len(),
{
    if es.len() > 0 {
        lemma_exprs_view_index(es.subrange(0, es.len() - 1));
    }
}

impl View for Expr {
    type V = ExprView;

    open spec fn view(&self) -> ExprView {
        expr_view(*self)
    }
}

} // verus!
