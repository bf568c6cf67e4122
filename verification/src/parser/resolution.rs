//! What resolution makes of a syntax tree: each variable, assignment and
//! `this` gets the number of scopes between it and the scope that declares
//! it (globals stay unresolved), and misuses of names are reported.
use vstd::prelude::*;
use crate::lexer::token::TokenView;
use crate::ast::expr::{Depth, ExprView};
use crate::ast::statement::StatementView;
use crate::parser::error::ParseErrorView;

verus! {

/// The resolver's state: the local scopes, innermost last, each mapping a
/// name to whether its declaration is complete; and whether resolution is
/// inside a function and inside a class.
pub struct Resolution {
    pub scopes: Seq<Map<Seq<char>, bool>>,
    pub in_function: bool,
    pub in_class: bool,
}

/// The error reported at a name: `At '<lexeme>': <message>`.
pub open spec fn error_at_name(name: TokenView, message: Seq<char>) -> ParseErrorView {
    ParseErrorView { line: name.line, message: "At '"@ + name.lexeme + "': "@ + message }
}

/// How many scopes out from the innermost the nearest one declaring `name`
/// lies, if any does.
pub open spec fn distance_to(scopes: Seq<Map<Seq<char>, bool>>, name: Seq<char>) -> Option<nat>
    decreases scopes.len(),
{
    if scopes.len() == 0 {
        None
    } else if scopes.last().dom().contains(name) {
        Some(0)
    } else {
        match distance_to(scopes.drop_last(), name) {
            Some(d) => Some(d + 1),
            None => None,
        }
    }
}

/// The depth a use of `name` gets: the distance to its declaration, or the
/// depth it had (unresolved, a global) if no local scope declares it.
pub open spec fn resolved_depth(scopes: Seq<Map<Seq<char>, bool>>, name: Seq<char>, depth: Depth) -> Depth {
    match distance_to(scopes, name) {
        Some(d) => Depth::Resolved(d as usize),
        None => depth,
    }
}

/// Declaring a name in the innermost scope, as not yet defined; nothing at
/// the global level; an error if the scope already declares it.
pub open spec fn declare(st: Resolution, name: TokenView) -> Result<Resolution, ParseErrorView> {
    if st.scopes.len() == 0 {
        Ok(st)
    } else if st.scopes.last().dom().contains(name.lexeme) {
        Err(error_at_name(name, "Variable with this name already declared in this scope"@))
    } else {
        Ok(
            Resolution {
                scopes: st.scopes.update(st.scopes.len() - 1, st.scopes.last().insert(name.lexeme, false)),
                ..st
            },
        )
    }
}

/// Marking a name defined in the innermost scope; nothing at the global
/// level.
pub open spec fn define(st: Resolution, name: Seq<char>) -> Resolution {
    if st.scopes.len() == 0 {
        st
    } else {
        Resolution { scopes: st.scopes.update(st.scopes.len() - 1, st.scopes.last().insert(name, true)), ..st }
    }
}

/// Declaring and defining the parameters from position `i` on.
pub open spec fn bind_params(params: Seq<TokenView>, i: int, st: Resolution) -> Result<Resolution, ParseErrorView>
    decreases params.len() - i,
{
    if i >= params.len() || i < 0 {
        Ok(st)
    } else {
        match declare(st, params[i]) {
            Err(e) => Err(e),
            Ok(s1) => bind_params(params, i + 1, define(s1, params[i].lexeme)),
        }
    }
}

/// Resolving an expression; the state does not change.
pub open spec fn res_expr(e: ExprView, st: Resolution) -> Result<ExprView, ParseErrorView>
    decreases e, 0int,
{
    match e {
        ExprView::Variable { name, depth } => if st.scopes.len() > 0 && st.scopes.last().dom().contains(name.lexeme)
            && !st.scopes.last()[name.lexeme] {
            Err(error_at_name(name, "Can't read local variable in its own initializer"@))
        } else {
            Ok(ExprView::Variable { name, depth: resolved_depth(st.scopes, name.lexeme, depth) })
        },
        ExprView::Assign { name, value, depth } => match res_expr(*value, st) {
            Err(err) => Err(err),
            Ok(v) => Ok(
                ExprView::Assign { name, value: Box::new(v), depth: resolved_depth(st.scopes, name.lexeme, depth) },
            ),
        },
        ExprView::This { keyword, depth } => if !st.in_class {
            Err(error_at_name(keyword, "Can't use 'this' outside of a class."@))
        } else {
            Ok(ExprView::This { keyword, depth: resolved_depth(st.scopes, "this"@, depth) })
        },
        ExprView::Literal { value } => Ok(ExprView::Literal { value }),
        ExprView::Grouping { expression } => match res_expr(*expression, st) {
            Err(err) => Err(err),
            Ok(x) => Ok(ExprView::Grouping { expression: Box::new(x) }),
        },
        ExprView::Unary { operator, right } => match res_expr(*right, st) {
            Err(err) => Err(err),
            Ok(x) => Ok(ExprView::Unary { operator, right: Box::new(x) }),
        },
        ExprView::Binary { left, operator, right } => match res_expr(*left, st) {
            Err(err) => Err(err),
            Ok(l) => match res_expr(*right, st) {
                Err(err) => Err(err),
                Ok(r) => Ok(ExprView::Binary { left: Box::new(l), operator, right: Box::new(r) }),
            },
        },
        ExprView::LogicOr { left, right } => match res_expr(*left, st) {
            Err(err) => Err(err),
            Ok(l) => match res_expr(*right, st) {
                Err(err) => Err(err),
                Ok(r) => Ok(ExprView::LogicOr { left: Box::new(l), right: Box::new(r) }),
            },
        },
        ExprView::LogicAnd { left, right } => match res_expr(*left, st) {
            Err(err) => Err(err),
            Ok(l) => match res_expr(*right, st) {
                Err(err) => Err(err),
                Ok(r) => Ok(ExprView::LogicAnd { left: Box::new(l), right: Box::new(r) }),
            },
        },
        ExprView::Get { object, name } => match res_expr(*object, st) {
            Err(err) => Err(err),
            Ok(o) => Ok(ExprView::Get { object: Box::new(o), name }),
        },
        ExprView::SetProperty { object, name, value } => match res_expr(*value, st) {
            Err(err) => Err(err),
            Ok(v) => match res_expr(*object, st) {
                Err(err) => Err(err),
                Ok(o) => Ok(ExprView::SetProperty { object: Box::new(o), name, value: Box::new(v) }),
            },
        },
        ExprView::Call { callee, paren, arguments } => match res_expr(*callee, st) {
            Err(err) => Err(err),
            Ok(c) => match res_exprs(arguments, 0, Seq::empty(), st) {
                Err(err) => Err(err),
                Ok(args) => Ok(ExprView::Call { callee: Box::new(c), paren, arguments: args }),
            },
        },
        ExprView::Lambda { params, body } => match res_function(params, body, st) {
            Err(err) => Err(err),
            Ok(b) => Ok(ExprView::Lambda { params, body: b }),
        },
    }
}

/// Resolving the expressions from position `i` on, after the resolved
/// ones in `acc`.
pub open spec fn res_exprs(es: Seq<ExprView>, i: int, acc: Seq<ExprView>, st: Resolution) -> Result<Seq<ExprView>, ParseErrorView>
    decreases es, es.len() - i,
{
    if i >= es.len() || i < 0 {
        Ok(acc)
    } else {
        match res_expr(es[i], st) {
            Err(err) => Err(err),
            Ok(x) => res_exprs(es, i + 1, acc.push(x), st),
        }
    }
}

/// Resolving a function's body: a new scope for its parameters, inside a
/// function, then its statements in that scope.
pub open spec fn res_function(params: Seq<TokenView>, body: Seq<StatementView>, st: Resolution) -> Result<Seq<StatementView>, ParseErrorView>
    decreases body, body.len() + 1,
{
    let inner = Resolution { scopes: st.scopes.push(Map::empty()), in_function: true, in_class: st.in_class };
    match bind_params(params, 0, inner) {
        Err(err) => Err(err),
        Ok(s1) => match res_stmts(body, 0, Seq::empty(), s1) {
            Err(err) => Err(err),
            Ok((b, _)) => Ok(b),
        },
    }
}

/// Resolving the statements from position `i` on, after the resolved ones
/// in `acc`; the state flows from each statement to the next.
pub open spec fn res_stmts(ss: Seq<StatementView>, i: int, acc: Seq<StatementView>, st: Resolution) -> Result<(Seq<StatementView>, Resolution), ParseErrorView>
    decreases ss, ss.len() - i,
{
    if i >= ss.len() || i < 0 {
        Ok((acc, st))
    } else {
        match res_stmt(ss[i], st) {
            Err(err) => Err(err),
            Ok((x, s1)) => res_stmts(ss, i + 1, acc.push(x), s1),
        }
    }
}

/// Resolving a method of a class: a function statement's body, resolved
/// as a function; other statements are left as they are.
pub open spec fn res_method(m: StatementView, st: Resolution) -> Result<StatementView, ParseErrorView>
    decreases m, 0int,
{
    match m {
        StatementView::Function { name, params, body, is_getter } => match res_function(params, body, st) {
            Err(err) => Err(err),
            Ok(b) => Ok(StatementView::Function { name, params, body: b, is_getter }),
        },
        _ => Ok(m),
    }
}

/// Resolving the methods from position `i` on.
pub open spec fn res_methods(ms: Seq<StatementView>, i: int, acc: Seq<StatementView>, st: Resolution) -> Result<Seq<StatementView>, ParseErrorView>
    decreases ms, ms.len() - i,
{
    if i >= ms.len() || i < 0 {
        Ok(acc)
    } else {
        match res_method(ms[i], st) {
            Err(err) => Err(err),
            Ok(x) => res_methods(ms, i + 1, acc.push(x), st),
        }
    }
}

/// Resolving a statement, and the state after it.
pub open spec fn res_stmt(s: StatementView, st: Resolution) -> Result<(StatementView, Resolution), ParseErrorView>
    decreases s, 0int,
{
    match s {
        StatementView::Expression { expression } => match res_expr(expression, st) {
            Err(err) => Err(err),
            Ok(x) => Ok((StatementView::Expression { expression: x }, st)),
        },
        StatementView::Print { expression } => match res_expr(expression, st) {
            Err(err) => Err(err),
            Ok(x) => Ok((StatementView::Print { expression: x }, st)),
        },
        StatementView::Var { name, initializer } => match declare(st, name) {
            Err(err) => Err(err),
            Ok(s1) => match initializer {
                Some(init) => match res_expr(init, s1) {
                    Err(err) => Err(err),
                    Ok(x) => Ok((StatementView::Var { name, initializer: Some(x) }, define(s1, name.lexeme))),
                },
                None => Ok((StatementView::Var { name, initializer: None }, define(s1, name.lexeme))),
            },
        },
        StatementView::If { condition, then_branch, else_branch } => match res_expr(condition, st) {
            Err(err) => Err(err),
            Ok(c) => match res_stmt(*then_branch, st) {
                Err(err) => Err(err),
                Ok((t, s1)) => match else_branch {
                    Some(b) => match res_stmt(*b, s1) {
                        Err(err) => Err(err),
                        Ok((e, s2)) => Ok(
                            (
                                StatementView::If { condition: c, then_branch: Box::new(t), else_branch: Some(Box::new(e)) },
                                s2,
                            ),
                        ),
                    },
                    None => Ok((StatementView::If { condition: c, then_branch: Box::new(t), else_branch: None }, s1)),
                },
            },
        },
        StatementView::While { condition, body } => match res_expr(condition, st) {
            Err(err) => Err(err),
            Ok(c) => match res_stmt(*body, st) {
                Err(err) => Err(err),
                Ok((b, s1)) => Ok((StatementView::While { condition: c, body: Box::new(b) }, s1)),
            },
        },
        StatementView::Block { statements } => {
            let inner = Resolution { scopes: st.scopes.push(Map::empty()), ..st };
            match res_stmts(statements, 0, Seq::empty(), inner) {
                Err(err) => Err(err),
                Ok((ss, _)) => Ok((StatementView::Block { statements: ss }, st)),
            }
        },
        StatementView::Function { name, params, body, is_getter } => match declare(st, name) {
            Err(err) => Err(err),
            Ok(s1) => {
                let s2 = define(s1, name.lexeme);
                match res_function(params, body, s2) {
                    Err(err) => Err(err),
                    Ok(b) => Ok((StatementView::Function { name, params, body: b, is_getter }, s2)),
                }
            },
        },
        StatementView::Return { keyword, value } => if !st.in_function {
            Err(error_at_name(keyword, "Can't return from top-level code"@))
        } else {
            match value {
                Some(v) => match res_expr(v, st) {
                    Err(err) => Err(err),
                    Ok(x) => Ok((StatementView::Return { keyword, value: Some(x) }, st)),
                },
                None => Ok((StatementView::Return { keyword, value: None }, st)),
            }
        },
        StatementView::Class { name, superclass, methods, static_fields, static_methods } => match declare(st, name) {
            Err(err) => Err(err),
            Ok(s1) => {
                let s2 = define(s1, name.lexeme);
                let in_class = Resolution {
                    scopes: s2.scopes.push(Map::empty().insert("this"@, true)),
                    in_function: s2.in_function,
                    in_class: true,
                };
                match res_methods(methods, 0, Seq::empty(), in_class) {
                    Err(err) => Err(err),
                    Ok(ms) => Ok(
                        (StatementView::Class { name, superclass, methods: ms, static_fields, static_methods }, s2),
                    ),
                }
            },
        },
    }
}

/// Resolving a program's statements at the top level.
pub open spec fn res_program(ss: Seq<StatementView>) -> Result<Seq<StatementView>, ParseErrorView> {
    match res_stmts(ss, 0, Seq::empty(), Resolution { scopes: Seq::empty(), in_function: false, in_class: false }) {
        Err(err) => Err(err),
        Ok((x, _)) => Ok(x),
    }
}

} // verus!
