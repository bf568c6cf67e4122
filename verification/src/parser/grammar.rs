//! The grammar the parser follows, as functions from a token sequence and a
//! position to what is parsed there and where parsing resumes.
//!
//! Every function returns either the parsed thing with the position after
//! it, or an error with the position the parser had reached when it failed.
//! Recursive descent moves strictly forward; a branch that would not is
//! never taken by the parser (the parser proves this), and is closed with
//! `stalled`.
use vstd::prelude::*;
use crate::lexer::token::{Keyword, LiteralView, TokenType, TokenView};
use crate::ast::expr::{Depth, ExprView};
use crate::ast::statement::StatementView;
use crate::parser::error::ParseErrorView;

verus! {

/// The outcome of parsing from a position.
pub type Parsed<T> = Result<(T, int), (ParseErrorView, int)>;

/// The error reported at a token: `Error at end: ...` at the end of input,
/// `Error at '<lexeme>': ...` elsewhere.
pub open spec fn error_at(tok: TokenView, msg: Seq<char>) -> ParseErrorView {
    if tok.token_type == TokenType::Eof {
        ParseErrorView { line: tok.line, message: "Error at end: "@ + msg }
    } else {
        ParseErrorView { line: tok.line, message: "Error at '"@ + tok.lexeme + "': "@ + msg }
    }
}

/// The outcome of a branch the parser never takes.
pub open spec fn stalled<T>(q: int) -> Parsed<T> {
    Err((ParseErrorView { line: 0, message: Seq::empty() }, q))
}

/// Whether `q` lies strictly after `p` and within the tokens.
pub open spec fn moved(t: Seq<TokenView>, p: int, q: int) -> bool {
    p < q <= t.len()
}

/// Whether the token at `p` has type `ty`.
pub open spec fn at(t: Seq<TokenView>, p: int, ty: TokenType) -> bool {
    0 <= p < t.len() && t[p].token_type == ty
}

/// Taking the token at `p`; past the end this fails at the last token.
pub open spec fn take(t: Seq<TokenView>, p: int) -> Parsed<TokenView> {
    if 0 <= p < t.len() {
        Ok((t[p], p + 1))
    } else {
        Err((error_at(t[t.len() - 1], "Unexpected end of input"@), p))
    }
}

/// Taking the token at `p`, which must have type `ty`.
pub open spec fn expect(t: Seq<TokenView>, p: int, ty: TokenType, msg: Seq<char>) -> Parsed<TokenView> {
    match take(t, p) {
        Ok((tok, q)) => if tok.token_type == ty {
            Ok((tok, q))
        } else {
            Err((error_at(tok, msg), q))
        },
        Err(e) => Err(e),
    }
}

/// A keyword that a statement can start with, where recovery stops.
pub open spec fn starts_statement(ty: TokenType) -> bool {
    match ty {
        TokenType::Keyword(k) => k == Keyword::Class || k == Keyword::Fun || k == Keyword::Var || k
            == Keyword::For || k == Keyword::If || k == Keyword::While || k == Keyword::Print || k
            == Keyword::Return,
        _ => false,
    }
}

/// Recovery after an error at position `p`: skip a token, then skip up to
/// and including a `;`, or up to a keyword that starts a statement.
pub open spec fn synchronize(t: Seq<TokenView>, p: int) -> int {
    skip_to_boundary(t, if 0 <= p < t.len() { p + 1 } else { p })
}

/// Skipping tokens until just after a `;` or at a statement keyword.
pub open spec fn skip_to_boundary(t: Seq<TokenView>, p: int) -> int
    decreases t.len() - p,
{
    if 0 <= p < t.len() {
        if t[p].token_type == TokenType::Semicolon {
            p + 1
        } else if starts_statement(t[p].token_type) {
            p
        } else {
            skip_to_boundary(t, p + 1)
        }
    } else {
        p
    }
}

/// The parameter names of a function or lambda, up to (not including) `)`.
#[verifier::opaque]
pub open spec fn parameters(t: Seq<TokenView>, p: int) -> Parsed<Seq<TokenView>> {
    if at(t, p, TokenType::RightParen) {
        Ok((Seq::empty(), p))
    } else {
        more_parameters(t, Seq::empty(), p)
    }
}

/// The parameter names after those in `acc`.
#[verifier::opaque]
pub open spec fn more_parameters(t: Seq<TokenView>, acc: Seq<TokenView>, p: int) -> Parsed<Seq<TokenView>>
    decreases t.len() - p,
{
    match expect(t, p, TokenType::Identifier, "Expect parameter name."@) {
        Err(e) => Err(e),
        Ok((name, q)) => if at(t, q, TokenType::Comma) {
            if moved(t, p, q + 1) {
                more_parameters(t, acc.push(name), q + 1)
            } else {
                stalled(q)
            }
        } else {
            Ok((acc.push(name), q))
        },
    }
}

/// The literal `true` that a `for` loop without a condition stands for.
pub open spec fn true_literal() -> ExprView {
    ExprView::Literal {
        value: TokenView {
            token_type: TokenType::Keyword(Keyword::True),
            lexeme: "true"@,
            literal: Some(LiteralView::Boolean(true)),
            line: 0,
        },
    }
}

/// expression := assignment
#[verifier::opaque]
pub open spec fn expression(t: Seq<TokenView>, p: int) -> Parsed<ExprView>
    decreases t.len() - p, 20int,
{
    assignment(t, p)
}

/// assignment := logic_or ( "=" assignment )?  (the target a variable or a
/// property)
#[verifier::opaque]
pub open spec fn assignment(t: Seq<TokenView>, p: int) -> Parsed<ExprView>
    decreases t.len() - p, 19int,
{
    match logic_or(t, p) {
        Err(e) => Err(e),
        Ok((target, q)) => if !moved(t, p, q) {
            stalled(q)
        } else if at(t, q, TokenType::Equal) {
            match assignment(t, q + 1) {
                Err(e) => Err(e),
                Ok((value, r)) => match target {
                    ExprView::Variable { name, .. } => Ok(
                        (ExprView::Assign { name, value: Box::new(value), depth: Depth::Unresolved }, r),
                    ),
                    ExprView::Get { object, name } => Ok(
                        (ExprView::SetProperty { object, name, value: Box::new(value) }, r),
                    ),
                    _ => Err((error_at(t[q], "Invalid assignment target."@), r)),
                },
            }
        } else {
            Ok((target, q))
        },
    }
}

/// logic_or := logic_and ( "or" logic_and )*
#[verifier::opaque]
pub open spec fn logic_or(t: Seq<TokenView>, p: int) -> Parsed<ExprView>
    decreases t.len() - p, 18int,
{
    match logic_and(t, p) {
        Err(e) => Err(e),
        Ok((left, q)) => if moved(t, p, q) {
            logic_or_rest(t, left, q)
        } else {
            stalled(q)
        },
    }
}

/// The `or` operands after `left`.
#[verifier::opaque]
pub open spec fn logic_or_rest(t: Seq<TokenView>, left: ExprView, p: int) -> Parsed<ExprView>
    decreases t.len() - p, 1int,
{
    if at(t, p, TokenType::Keyword(Keyword::Or)) {
        match logic_and(t, p + 1) {
            Err(e) => Err(e),
            Ok((right, q)) => if moved(t, p, q) {
                logic_or_rest(t, ExprView::LogicOr { left: Box::new(left), right: Box::new(right) }, q)
            } else {
                stalled(q)
            },
        }
    } else {
        Ok((left, p))
    }
}

/// logic_and := equality ( "and" equality )*
#[verifier::opaque]
pub open spec fn logic_and(t: Seq<TokenView>, p: int) -> Parsed<ExprView>
    decreases t.len() - p, 17int,
{
    match equality(t, p) {
        Err(e) => Err(e),
        Ok((left, q)) => if moved(t, p, q) {
            logic_and_rest(t, left, q)
        } else {
            stalled(q)
        },
    }
}

/// The `and` operands after `left`.
#[verifier::opaque]
pub open spec fn logic_and_rest(t: Seq<TokenView>, left: ExprView, p: int) -> Parsed<ExprView>
    decreases t.len() - p, 1int,
{
    if at(t, p, TokenType::Keyword(Keyword::And)) {
        match equality(t, p + 1) {
            Err(e) => Err(e),
            Ok((right, q)) => if moved(t, p, q) {
                logic_and_rest(t, ExprView::LogicAnd { left: Box::new(left), right: Box::new(right) }, q)
            } else {
                stalled(q)
            },
        }
    } else {
        Ok((left, p))
    }
}

/// Whether the token at `p` is an operator of `equality`.
pub open spec fn equality_operator(t: Seq<TokenView>, p: int) -> bool {
    0 <= p < t.len() && (t[p].token_type == TokenType::BangEqual || t[p].token_type == TokenType::EqualEqual)
}

/// equality := comparison ( ( "!=" | "==" ) comparison )*, grouped to the left
#[verifier::opaque]
pub open spec fn equality(t: Seq<TokenView>, p: int) -> Parsed<ExprView>
    decreases t.len() - p, 16int,
{
    match comparison(t, p) {
        Err(e) => Err(e),
        Ok((left, q)) => if moved(t, p, q) {
            equality_rest(t, left, q)
        } else {
            stalled(q)
        },
    }
}

/// The operators and operands of `equality` after `left`.
#[verifier::opaque]
pub open spec fn equality_rest(t: Seq<TokenView>, left: ExprView, p: int) -> Parsed<ExprView>
    decreases t.len() - p, 1int,
{
    if equality_operator(t, p) {
        match comparison(t, p + 1) {
            Err(e) => Err(e),
            Ok((right, q)) => if moved(t, p, q) {
                equality_rest(
                    t,
                    ExprView::Binary { left: Box::new(left), operator: t[p], right: Box::new(right) },
                    q,
                )
            } else {
                stalled(q)
            },
        }
    } else {
        Ok((left, p))
    }
}

/// Whether the token at `p` is an operator of `comparison`.
pub open spec fn comparison_operator(t: Seq<TokenView>, p: int) -> bool {
    0 <= p < t.len() && (t[p].token_type == TokenType::Less || t[p].token_type == TokenType::Greater || t[p].token_type == TokenType::LessEqual || t[p].token_type == TokenType::GreaterEqual)
}

/// comparison := additive ( ( "<" | ">" | "<=" | ">=" ) additive )*, grouped to the left
#[verifier::opaque]
pub open spec fn comparison(t: Seq<TokenView>, p: int) -> Parsed<ExprView>
    decreases t.len() - p, 13int,
{
    match additive(t, p) {
        Err(e) => Err(e),
        Ok((left, q)) => if moved(t, p, q) {
            comparison_rest(t, left, q)
        } else {
            stalled(q)
        },
    }
}

/// The operators and operands of `comparison` after `left`.
#[verifier::opaque]
pub open spec fn comparison_rest(t: Seq<TokenView>, left: ExprView, p: int) -> Parsed<ExprView>
    decreases t.len() - p, 1int,
{
    if comparison_operator(t, p) {
        match additive(t, p + 1) {
            Err(e) => Err(e),
            Ok((right, q)) => if moved(t, p, q) {
                comparison_rest(
                    t,
                    ExprView::Binary { left: Box::new(left), operator: t[p], right: Box::new(right) },
                    q,
                )
            } else {
                stalled(q)
            },
        }
    } else {
        Ok((left, p))
    }
}

/// Whether the token at `p` is an operator of `additive`.
pub open spec fn additive_operator(t: Seq<TokenView>, p: int) -> bool {
    0 <= p < t.len() && (t[p].token_type == TokenType::Minus || t[p].token_type == TokenType::Plus)
}

/// additive := factor ( ( "-" | "+" ) factor )*, grouped to the left
#[verifier::opaque]
pub open spec fn additive(t: Seq<TokenView>, p: int) -> Parsed<ExprView>
    decreases t.len() - p, 10int,
{
    match factor(t, p) {
        Err(e) => Err(e),
        Ok((left, q)) => if moved(t, p, q) {
            additive_rest(t, left, q)
        } else {
            stalled(q)
        },
    }
}

/// The operators and operands of `additive` after `left`.
#[verifier::opaque]
pub open spec fn additive_rest(t: Seq<TokenView>, left: ExprView, p: int) -> Parsed<ExprView>
    decreases t.len() - p, 1int,
{
    if additive_operator(t, p) {
        match factor(t, p + 1) {
            Err(e) => Err(e),
            Ok((right, q)) => if moved(t, p, q) {
                additive_rest(
                    t,
                    ExprView::Binary { left: Box::new(left), operator: t[p], right: Box::new(right) },
                    q,
                )
            } else {
                stalled(q)
            },
        }
    } else {
        Ok((left, p))
    }
}

/// Whether the token at `p` is an operator of `factor`.
pub open spec fn factor_operator(t: Seq<TokenView>, p: int) -> bool {
    0 <= p < t.len() && (t[p].token_type == TokenType::Slash || t[p].token_type == TokenType::Star)
}

/// factor := unary ( ( "/" | "*" ) unary )*, grouped to the left
#[verifier::opaque]
pub open spec fn factor(t: Seq<TokenView>, p: int) -> Parsed<ExprView>
    decreases t.len() - p, 7int,
{
    match unary(t, p) {
        Err(e) => Err(e),
        Ok((left, q)) => if moved(t, p, q) {
            factor_rest(t, left, q)
        } else {
            stalled(q)
        },
    }
}

/// The operators and operands of `factor` after `left`.
#[verifier::opaque]
pub open spec fn factor_rest(t: Seq<TokenView>, left: ExprView, p: int) -> Parsed<ExprView>
    decreases t.len() - p, 1int,
{
    if factor_operator(t, p) {
        match unary(t, p + 1) {
            Err(e) => Err(e),
            Ok((right, q)) => if moved(t, p, q) {
                factor_rest(
                    t,
                    ExprView::Binary { left: Box::new(left), operator: t[p], right: Box::new(right) },
                    q,
                )
            } else {
                stalled(q)
            },
        }
    } else {
        Ok((left, p))
    }
}

/// unary := ( "!" | "-" ) unary | call
#[verifier::opaque]
pub open spec fn unary(t: Seq<TokenView>, p: int) -> Parsed<ExprView>
    decreases t.len() - p, 5int,
{
    if at(t, p, TokenType::Bang) || at(t, p, TokenType::Minus) {
        match unary(t, p + 1) {
            Err(e) => Err(e),
            Ok((right, q)) => Ok((ExprView::Unary { operator: t[p], right: Box::new(right) }, q)),
        }
    } else {
        call(t, p)
    }
}

/// call := primary ( "(" arguments ")" | "." IDENTIFIER )*
#[verifier::opaque]
pub open spec fn call(t: Seq<TokenView>, p: int) -> Parsed<ExprView>
    decreases t.len() - p, 4int,
{
    match primary(t, p) {
        Err(e) => Err(e),
        Ok((e, q)) => if moved(t, p, q) {
            call_rest(t, e, q)
        } else {
            stalled(q)
        },
    }
}

/// The calls and property accesses applied to `callee`.
#[verifier::opaque]
pub open spec fn call_rest(t: Seq<TokenView>, callee: ExprView, p: int) -> Parsed<ExprView>
    decreases t.len() - p, 2int,
{
    if at(t, p, TokenType::LeftParen) {
        match finish_call(t, callee, p) {
            Err(e) => Err(e),
            Ok((c, r)) => if moved(t, p, r) {
                call_rest(t, c, r)
            } else {
                stalled(r)
            },
        }
    } else if at(t, p, TokenType::Dot) {
        match expect(t, p + 1, TokenType::Identifier, "Expect property name after '.'."@) {
            Err(e) => Err(e),
            Ok((name, q)) => call_rest(t, ExprView::Get { object: Box::new(callee), name }, q),
        }
    } else {
        Ok((callee, p))
    }
}

/// A call of `callee` whose `(` is at `p`: the arguments and the `)`.
#[verifier::opaque]
pub open spec fn finish_call(t: Seq<TokenView>, callee: ExprView, p: int) -> Parsed<ExprView>
    decreases t.len() - p, 1int,
{
    if !(0 <= p < t.len()) {
        stalled(p)
    } else {
        let a: Parsed<Seq<ExprView>> = if at(t, p + 1, TokenType::RightParen) {
            Ok((Seq::empty(), p + 1))
        } else {
            more_arguments(t, Seq::empty(), p + 1)
        };
        match a {
            Err(e) => Err(e),
            Ok((args, q)) => match expect(t, q, TokenType::RightParen, "Expect ')' after arguments."@) {
                Err(e) => Err(e),
                Ok((paren, r)) => Ok((ExprView::Call { callee: Box::new(callee), paren, arguments: args }, r)),
            },
        }
    }
}

/// The arguments after those in `acc`.
#[verifier::opaque]
pub open spec fn more_arguments(t: Seq<TokenView>, acc: Seq<ExprView>, p: int) -> Parsed<Seq<ExprView>>
    decreases t.len() - p, 21int,
{
    match expression(t, p) {
        Err(e) => Err(e),
        Ok((arg, q)) => if !moved(t, p, q) {
            stalled(q)
        } else if at(t, q, TokenType::Comma) {
            more_arguments(t, acc.push(arg), q + 1)
        } else {
            Ok((acc.push(arg), q))
        },
    }
}

/// primary := NUMBER | STRING | "true" | "false" | "nil" | "this" | IDENTIFIER
///          | "(" expression ")" | "fun" lambda
#[verifier::opaque]
pub open spec fn primary(t: Seq<TokenView>, p: int) -> Parsed<ExprView>
    decreases t.len() - p, 3int,
{
    match take(t, p) {
        Err(e) => Err(e),
        Ok((tok, q)) => match tok.token_type {
            TokenType::Number | TokenType::String => Ok((ExprView::Literal { value: tok }, q)),
            TokenType::LeftParen => match expression(t, q) {
                Err(e) => Err(e),
                Ok((e, r)) => match expect(t, r, TokenType::RightParen, "Expect expression."@) {
                    Err(e) => Err(e),
                    Ok((_, r2)) => Ok((ExprView::Grouping { expression: Box::new(e) }, r2)),
                },
            },
            TokenType::Keyword(Keyword::Nil) | TokenType::Keyword(Keyword::False) | TokenType::Keyword(
                Keyword::True,
            ) => Ok((ExprView::Literal { value: tok }, q)),
            TokenType::Keyword(Keyword::Fun) => lambda(t, q),
            TokenType::Keyword(Keyword::This) => Ok((ExprView::This { keyword: tok, depth: Depth::Unresolved }, q)),
            TokenType::Identifier => Ok((ExprView::Variable { name: tok, depth: Depth::Unresolved }, q)),
            _ => Err((error_at(tok, "Expect expression."@), q)),
        },
    }
}

/// lambda := "(" parameters ")" "{" block   (after `fun`)
#[verifier::opaque]
pub open spec fn lambda(t: Seq<TokenView>, p: int) -> Parsed<ExprView>
    decreases t.len() - p, 2int,
{
    match expect(t, p, TokenType::LeftParen, "Expect '(' after 'fun'."@) {
        Err(e) => Err(e),
        Ok((_, q)) => match parameters(t, q) {
            Err(e) => Err(e),
            Ok((params, r)) => match expect(t, r, TokenType::RightParen, "Expect ')' after parameters."@) {
                Err(e) => Err(e),
                Ok((_, r2)) => match expect(t, r2, TokenType::LeftBrace, "Expect '{' before lambda body."@) {
                    Err(e) => Err(e),
                    Ok((_, r3)) => if moved(t, p, r3) {
                        match block(t, r3) {
                            Err(e) => Err(e),
                            Ok((body, r4)) => Ok((ExprView::Lambda { params, body }, r4)),
                        }
                    } else {
                        stalled(r3)
                    },
                },
            },
        },
    }
}

/// block := "{"? declaration* "}"  — the brace is taken when present.
#[verifier::opaque]
pub open spec fn block(t: Seq<TokenView>, p: int) -> Parsed<Seq<StatementView>>
    decreases t.len() - p, 31int,
{
    if at(t, p, TokenType::LeftBrace) {
        block_body(t, Seq::empty(), p + 1)
    } else {
        block_body(t, Seq::empty(), p)
    }
}

/// The declarations of a block after those in `acc`, up to its `}`.
#[verifier::opaque]
pub open spec fn block_body(t: Seq<TokenView>, acc: Seq<StatementView>, p: int) -> Parsed<Seq<StatementView>>
    decreases t.len() - p, 30int,
{
    if !at(t, p, TokenType::RightBrace) && p < t.len() - 1 {
        match declaration(t, p) {
            Err(e) => Err(e),
            Ok((s, q)) => if moved(t, p, q) {
                block_body(t, acc.push(s), q)
            } else {
                stalled(q)
            },
        }
    } else {
        match expect(t, p, TokenType::RightBrace, "Expect '}' after block."@) {
            Err(e) => Err(e),
            Ok((_, q)) => Ok((acc, q)),
        }
    }
}

/// A declaration; on an error the position is moved past the next
/// statement boundary.
#[verifier::opaque]
pub open spec fn declaration(t: Seq<TokenView>, p: int) -> Parsed<StatementView>
    decreases t.len() - p, 29int,
{
    let r = if at(t, p, TokenType::Keyword(Keyword::Var)) {
        var_declaration(t, p)
    } else if at(t, p, TokenType::Keyword(Keyword::Fun)) {
        function_declaration(t, p + 1, "function"@)
    } else if at(t, p, TokenType::Keyword(Keyword::Class)) {
        class_declaration(t, p)
    } else {
        statement(t, p)
    };
    match r {
        Ok(x) => Ok(x),
        Err((e, q)) => Err((e, synchronize(t, q))),
    }
}

/// var_declaration := "var" IDENTIFIER ( "=" expression )? ";"
#[verifier::opaque]
pub open spec fn var_declaration(t: Seq<TokenView>, p: int) -> Parsed<StatementView>
    decreases t.len() - p, 27int,
{
    match expect(t, p + 1, TokenType::Identifier, "Expect variable name."@) {
        Err(e) => Err(e),
        Ok((name, q)) => if at(t, q, TokenType::Equal) {
            match expression(t, q + 1) {
                Err(e) => Err(e),
                Ok((init, r)) => match expect(
                    t,
                    r,
                    TokenType::Semicolon,
                    "Expect ';' after variable declaration."@,
                ) {
                    Err(e) => Err(e),
                    Ok((_, r2)) => Ok((StatementView::Var { name, initializer: Some(init) }, r2)),
                },
            }
        } else {
            match expect(t, q, TokenType::Semicolon, "Expect ';' after variable declaration."@) {
                Err(e) => Err(e),
                Ok((_, r2)) => Ok((StatementView::Var { name, initializer: None }, r2)),
            }
        },
    }
}

/// function := IDENTIFIER "(" parameters ")" "{" block   (after `fun`, or a
/// method in a class body); `kind` names it in messages.
#[verifier::opaque]
pub open spec fn function_declaration(t: Seq<TokenView>, p: int, kind: Seq<char>) -> Parsed<StatementView>
    decreases t.len() - p, 27int,
{
    match expect(t, p, TokenType::Identifier, "Expect "@ + kind + " name."@) {
        Err(e) => Err(e),
        Ok((name, q)) => match expect(t, q, TokenType::LeftParen, "Expect '(' after "@ + kind + " name."@) {
            Err(e) => Err(e),
            Ok((_, q2)) => match parameters(t, q2) {
                Err(e) => Err(e),
                Ok((params, r)) => match expect(t, r, TokenType::RightParen, "Expect ')' after parameters."@) {
                    Err(e) => Err(e),
                    Ok((_, r2)) => match expect(t, r2, TokenType::LeftBrace, "Expect '{' before "@ + kind + " body."@) {
                        Err(e) => Err(e),
                        Ok((_, r3)) => if moved(t, p, r3) {
                            match block(t, r3) {
                                Err(e) => Err(e),
                                Ok((body, r4)) => Ok(
                                    (StatementView::Function { name, params, body, is_getter: false }, r4),
                                ),
                            }
                        } else {
                            stalled(r3)
                        },
                    },
                },
            },
        },
    }
}

/// class := "class" IDENTIFIER "{" method* "}"
#[verifier::opaque]
pub open spec fn class_declaration(t: Seq<TokenView>, p: int) -> Parsed<StatementView>
    decreases t.len() - p, 27int,
{
    match expect(t, p + 1, TokenType::Identifier, "Expect class name."@) {
        Err(e) => Err(e),
        Ok((name, q)) => match expect(t, q, TokenType::LeftBrace, "Expect '{' before class body."@) {
            Err(e) => Err(e),
            Ok((_, q2)) => class_body(t, name, Seq::empty(), q2),
        },
    }
}

/// The methods of a class after those in `acc`, up to its `}`.
#[verifier::opaque]
pub open spec fn class_body(t: Seq<TokenView>, name: TokenView, acc: Seq<StatementView>, p: int) -> Parsed<
    StatementView,
>
    decreases t.len() - p, 28int,
{
    if !at(t, p, TokenType::RightBrace) && p < t.len() - 1 {
        match function_declaration(t, p, "method"@) {
            Err(e) => Err(e),
            Ok((m, q)) => if moved(t, p, q) {
                class_body(t, name, acc.push(m), q)
            } else {
                stalled(q)
            },
        }
    } else {
        match expect(t, p, TokenType::RightBrace, "Expect '}' after class body."@) {
            Err(e) => Err(e),
            Ok((_, q)) => Ok(
                (
                    StatementView::Class {
                        name,
                        superclass: None,
                        methods: acc,
                        static_fields: Seq::empty(),
                        static_methods: Seq::empty(),
                    },
                    q,
                ),
            ),
        }
    }
}

/// statement := print | block | if | while | for | return | expression ";"
#[verifier::opaque]
pub open spec fn statement(t: Seq<TokenView>, p: int) -> Parsed<StatementView>
    decreases t.len() - p, 28int,
{
    if at(t, p, TokenType::Keyword(Keyword::Print)) {
        print_statement(t, p)
    } else if at(t, p, TokenType::LeftBrace) {
        match block_body(t, Seq::empty(), p + 1) {
            Err(e) => Err(e),
            Ok((statements, q)) => Ok((StatementView::Block { statements }, q)),
        }
    } else if at(t, p, TokenType::Keyword(Keyword::If)) {
        if_statement(t, p)
    } else if at(t, p, TokenType::Keyword(Keyword::While)) {
        while_statement(t, p)
    } else if at(t, p, TokenType::Keyword(Keyword::For)) {
        for_statement(t, p)
    } else if at(t, p, TokenType::Keyword(Keyword::Return)) {
        return_statement(t, p)
    } else {
        expression_statement(t, p)
    }
}

/// print := "print" expression ";"
#[verifier::opaque]
pub open spec fn print_statement(t: Seq<TokenView>, p: int) -> Parsed<StatementView>
    decreases t.len() - p, 27int,
{
    if !(0 <= p < t.len()) {
        stalled(p)
    } else {
        match expression(t, p + 1) {
            Err(e) => Err(e),
            Ok((e, q)) => match expect(t, q, TokenType::Semicolon, "Expect ';' after value."@) {
                Err(e) => Err(e),
                Ok((_, r)) => Ok((StatementView::Print { expression: e }, r)),
            },
        }
    }
}

/// expression_statement := expression ";"
#[verifier::opaque]
pub open spec fn expression_statement(t: Seq<TokenView>, p: int) -> Parsed<StatementView>
    decreases t.len() - p, 27int,
{
    match expression(t, p) {
        Err(e) => Err(e),
        Ok((e, q)) => match expect(t, q, TokenType::Semicolon, "Expect ';' after expression."@) {
            Err(e) => Err(e),
            Ok((_, r)) => Ok((StatementView::Expression { expression: e }, r)),
        },
    }
}

/// if := "if" "(" expression ")" statement ( "else" statement )?
#[verifier::opaque]
pub open spec fn if_statement(t: Seq<TokenView>, p: int) -> Parsed<StatementView>
    decreases t.len() - p, 27int,
{
    match expect(t, p + 1, TokenType::LeftParen, "Expect '(' after 'if'."@) {
        Err(e) => Err(e),
        Ok((_, q)) => match expression(t, q) {
            Err(e) => Err(e),
            Ok((condition, r)) => match expect(t, r, TokenType::RightParen, "Expect ')' after if condition."@) {
                Err(e) => Err(e),
                Ok((_, r2)) => if !moved(t, p, r2) {
                    stalled(r2)
                } else {
                    match statement(t, r2) {
                        Err(e) => Err(e),
                        Ok((then_branch, r3)) => if !moved(t, p, r3) {
                            stalled(r3)
                        } else if at(t, r3, TokenType::Keyword(Keyword::Else)) {
                            match statement(t, r3 + 1) {
                                Err(e) => Err(e),
                                Ok((else_branch, r4)) => Ok(
                                    (
                                        StatementView::If {
                                            condition,
                                            then_branch: Box::new(then_branch),
                                            else_branch: Some(Box::new(else_branch)),
                                        },
                                        r4,
                                    ),
                                ),
                            }
                        } else {
                            Ok(
                                (
                                    StatementView::If {
                                        condition,
                                        then_branch: Box::new(then_branch),
                                        else_branch: None,
                                    },
                                    r3,
                                ),
                            )
                        },
                    }
                },
            },
        },
    }
}

/// while := "while" "(" expression ")" statement
#[verifier::opaque]
pub open spec fn while_statement(t: Seq<TokenView>, p: int) -> Parsed<StatementView>
    decreases t.len() - p, 27int,
{
    match expect(t, p + 1, TokenType::LeftParen, "Expect '(' after 'while'."@) {
        Err(e) => Err(e),
        Ok((_, q)) => match expression(t, q) {
            Err(e) => Err(e),
            Ok((condition, r)) => match expect(t, r, TokenType::RightParen, "Expect ')' after while condition."@) {
                Err(e) => Err(e),
                Ok((_, r2)) => if !moved(t, p, r2) {
                    stalled(r2)
                } else {
                    match statement(t, r2) {
                        Err(e) => Err(e),
                        Ok((body, r3)) => Ok((StatementView::While { condition, body: Box::new(body) }, r3)),
                    }
                },
            },
        },
    }
}

/// The initializer clause of a `for` loop and the position after it.
#[verifier::opaque]
pub open spec fn for_initializer(t: Seq<TokenView>, p: int) -> Parsed<Option<StatementView>>
    decreases t.len() - p, 28int,
{
    if at(t, p, TokenType::Semicolon) {
        Ok((None, p + 1))
    } else if at(t, p, TokenType::Keyword(Keyword::Var)) {
        match var_declaration(t, p) {
            Err(e) => Err(e),
            Ok((s, q)) => Ok((Some(s), q)),
        }
    } else {
        match expression_statement(t, p) {
            Err(e) => Err(e),
            Ok((s, q)) => Ok((Some(s), q)),
        }
    }
}

/// The statement a `for` loop stands for: the initializer, then a `while`
/// loop on the condition whose body is the loop body followed by the
/// increment.
pub open spec fn desugar_for(
    initializer: Option<StatementView>,
    condition: ExprView,
    increment: Option<ExprView>,
    body: StatementView,
) -> StatementView {
    let with_increment = match increment {
        Some(i) => StatementView::Block { statements: seq![body, StatementView::Expression { expression: i }] },
        None => body,
    };
    let looped = StatementView::While { condition, body: Box::new(with_increment) };
    match initializer {
        Some(init) => StatementView::Block { statements: seq![init, looped] },
        None => looped,
    }
}

/// for := "for" "(" ( var_declaration | expression_statement | ";" )
///        expression? ";" expression? ")" statement
#[verifier::opaque]
pub open spec fn for_statement(t: Seq<TokenView>, p: int) -> Parsed<StatementView>
    decreases t.len() - p, 27int,
{
    match expect(t, p + 1, TokenType::LeftParen, "Expect '(' after 'for'."@) {
        Err(e) => Err(e),
        Ok((_, q)) => if !moved(t, p, q) {
            stalled(q)
        } else {
            match for_initializer(t, q) {
                Err(e) => Err(e),
                Ok((initializer, q1)) => if !moved(t, p, q1) {
                    stalled(q1)
                } else {
                    let cond: Parsed<ExprView> = if !at(t, q1, TokenType::Semicolon) {
                        expression(t, q1)
                    } else {
                        Ok((true_literal(), q1))
                    };
                    match cond {
                        Err(e) => Err(e),
                        Ok((condition, q2)) => match expect(
                            t,
                            q2,
                            TokenType::Semicolon,
                            "Expect ';' after loop condition."@,
                        ) {
                            Err(e) => Err(e),
                            Ok((_, q3)) => if !moved(t, p, q3) {
                                stalled(q3)
                            } else {
                                let inc: Parsed<Option<ExprView>> = if !at(t, q3, TokenType::RightParen) {
                                    match expression(t, q3) {
                                        Err(e) => Err(e),
                                        Ok((i, q4)) => Ok((Some(i), q4)),
                                    }
                                } else {
                                    Ok((None, q3))
                                };
                                match inc {
                                    Err(e) => Err(e),
                                    Ok((increment, q4)) => match expect(
                                        t,
                                        q4,
                                        TokenType::RightParen,
                                        "Expect ')' after for clauses."@,
                                    ) {
                                        Err(e) => Err(e),
                                        Ok((_, q5)) => if !moved(t, p, q5) {
                                            stalled(q5)
                                        } else {
                                            match statement(t, q5) {
                                                Err(e) => Err(e),
                                                Ok((body, q6)) => Ok(
                                                    (desugar_for(initializer, condition, increment, body), q6),
                                                ),
                                            }
                                        },
                                    },
                                }
                            },
                        },
                    }
                },
            }
        },
    }
}

/// return := "return" expression? ";"
#[verifier::opaque]
pub open spec fn return_statement(t: Seq<TokenView>, p: int) -> Parsed<StatementView>
    decreases t.len() - p, 27int,
{
    match take(t, p) {
        Err(e) => Err(e),
        Ok((keyword, q)) => {
            let v: Parsed<Option<ExprView>> = if !at(t, q, TokenType::Semicolon) {
                match expression(t, q) {
                    Err(e) => Err(e),
                    Ok((e, r)) => Ok((Some(e), r)),
                }
            } else {
                Ok((None, q))
            };
            match v {
                Err(e) => Err(e),
                Ok((value, r)) => match expect(t, r, TokenType::Semicolon, "Expect ';' after return value."@) {
                    Err(e) => Err(e),
                    Ok((_, r2)) => Ok((StatementView::Return { keyword, value }, r2)),
                },
            }
        },
    }
}

/// A program: the declarations before the end-of-input token, with the
/// errors of those that failed (each failed declaration is skipped past the
/// next statement boundary).
#[verifier::opaque]
pub open spec fn program(t: Seq<TokenView>, p: int) -> (Seq<StatementView>, Seq<ParseErrorView>)
    decreases t.len() - p,
{
    if 0 <= p < t.len() - 1 {
        match declaration(t, p) {
            Ok((s, q)) => if moved(t, p, q) {
                let rest = program(t, q);
                (seq![s] + rest.0, rest.1)
            } else {
                (Seq::empty(), Seq::empty())
            },
            Err((e, q)) => if moved(t, p, q) {
                let rest = program(t, q);
                (rest.0, seq![e] + rest.1)
            } else {
                (Seq::empty(), Seq::empty())
            },
        }
    } else {
        (Seq::empty(), Seq::empty())
    }
}

/// A number followed by a token that extends no operand (no call,
/// property, factor or additive operator) is an additive operand of its own.
#[verifier::spinoff_prover]
proof fn lemma_number_operand(t: Seq<TokenView>, p: int)
    requires
        0 <= p,
        p + 1 < t.len(),
        t[p].token_type == TokenType::Number,
        t[p + 1].token_type != TokenType::LeftParen,
        t[p + 1].token_type != TokenType::Dot,
        t[p + 1].token_type != TokenType::Slash,
        t[p + 1].token_type != TokenType::Star,
        t[p + 1].token_type != TokenType::Minus,
        t[p + 1].token_type != TokenType::Plus,
    ensures
        additive(t, p) == Ok::<(ExprView, int), (ParseErrorView, int)>((ExprView::Literal { value: t[p] }, p + 1)),
{
    reveal_with_fuel(primary, 1);
    reveal_with_fuel(call, 1);
    reveal_with_fuel(call_rest, 1);
    reveal_with_fuel(unary, 1);
    reveal_with_fuel(factor, 1);
    reveal_with_fuel(factor_rest, 1);
    reveal_with_fuel(additive, 1);
    reveal_with_fuel(additive_rest, 1);
}

/// No equality operator stands at a `;`.
#[verifier::spinoff_prover]
proof fn lemma_equality_rest_stops(t: Seq<TokenView>, e: ExprView, q: int)
    requires
        0 <= q < t.len(),
        t[q].token_type == TokenType::Semicolon,
    ensures
        equality_rest(t, e, q) == Ok::<(ExprView, int), (ParseErrorView, int)>((e, q)),
{
    reveal_with_fuel(equality_rest, 1);
}

/// No `and` stands at a `;`.
#[verifier::spinoff_prover]
proof fn lemma_logic_and_rest_stops(t: Seq<TokenView>, e: ExprView, q: int)
    requires
        0 <= q < t.len(),
        t[q].token_type == TokenType::Semicolon,
    ensures
        logic_and_rest(t, e, q) == Ok::<(ExprView, int), (ParseErrorView, int)>((e, q)),
{
    reveal_with_fuel(logic_and_rest, 1);
}

/// No `or` stands at a `;`.
#[verifier::spinoff_prover]
proof fn lemma_logic_or_rest_stops(t: Seq<TokenView>, e: ExprView, q: int)
    requires
        0 <= q < t.len(),
        t[q].token_type == TokenType::Semicolon,
    ensures
        logic_or_rest(t, e, q) == Ok::<(ExprView, int), (ParseErrorView, int)>((e, q)),
{
    reveal_with_fuel(logic_or_rest, 1);
}

/// A comparison before a `;` is an equality.
#[verifier::spinoff_prover]
proof fn lemma_up_to_equality(t: Seq<TokenView>, p: int, e: ExprView, q: int)
    requires
        0 <= p < q < t.len(),
        comparison(t, p) == Ok::<(ExprView, int), (ParseErrorView, int)>((e, q)),
        t[q].token_type == TokenType::Semicolon,
    ensures
        equality(t, p) == Ok::<(ExprView, int), (ParseErrorView, int)>((e, q)),
{
    lemma_equality_rest_stops(t, e, q);
    reveal_with_fuel(equality, 1);
}

/// An equality before a `;` is a conjunction.
#[verifier::spinoff_prover]
proof fn lemma_up_to_and(t: Seq<TokenView>, p: int, e: ExprView, q: int)
    requires
        0 <= p < q < t.len(),
        equality(t, p) == Ok::<(ExprView, int), (ParseErrorView, int)>((e, q)),
        t[q].token_type == TokenType::Semicolon,
    ensures
        logic_and(t, p) == Ok::<(ExprView, int), (ParseErrorView, int)>((e, q)),
{
    lemma_logic_and_rest_stops(t, e, q);
    reveal_with_fuel(logic_and, 1);
}

/// A conjunction before a `;` is a disjunction.
#[verifier::spinoff_prover]
proof fn lemma_up_to_or(t: Seq<TokenView>, p: int, e: ExprView, q: int)
    requires
        0 <= p < q < t.len(),
        logic_and(t, p) == Ok::<(ExprView, int), (ParseErrorView, int)>((e, q)),
        t[q].token_type == TokenType::Semicolon,
    ensures
        logic_or(t, p) == Ok::<(ExprView, int), (ParseErrorView, int)>((e, q)),
{
    lemma_logic_or_rest_stops(t, e, q);
    reveal_with_fuel(logic_or, 1);
}

/// A disjunction before a `;` is an assignment-level expression.
#[verifier::spinoff_prover]
proof fn lemma_up_to_assignment(t: Seq<TokenView>, p: int, e: ExprView, q: int)
    requires
        0 <= p < q < t.len(),
        logic_or(t, p) == Ok::<(ExprView, int), (ParseErrorView, int)>((e, q)),
        t[q].token_type == TokenType::Semicolon,
    ensures
        assignment(t, p) == Ok::<(ExprView, int), (ParseErrorView, int)>((e, q)),
{
    reveal_with_fuel(assignment, 1);
}

/// An assignment-level expression is an expression.
#[verifier::spinoff_prover]
proof fn lemma_up_to_expression(t: Seq<TokenView>, p: int, e: ExprView, q: int)
    requires
        0 <= p < q < t.len(),
        assignment(t, p) == Ok::<(ExprView, int), (ParseErrorView, int)>((e, q)),
        t[q].token_type == TokenType::Semicolon,
    ensures
        expression(t, p) == Ok::<(ExprView, int), (ParseErrorView, int)>((e, q)),
{
    reveal_with_fuel(expression, 1);
}

/// An expression that `comparison` parses up to a `;` is the whole
/// expression.
#[verifier::spinoff_prover]
proof fn lemma_comparison_is_expression(t: Seq<TokenView>, p: int, e: ExprView, q: int)
    requires
        0 <= p < q < t.len(),
        comparison(t, p) == Ok::<(ExprView, int), (ParseErrorView, int)>((e, q)),
        t[q].token_type == TokenType::Semicolon,
    ensures
        expression(t, p) == Ok::<(ExprView, int), (ParseErrorView, int)>((e, q)),
{
    lemma_up_to_equality(t, p, e, q);
    lemma_up_to_and(t, p, e, q);
    lemma_up_to_or(t, p, e, q);
    lemma_up_to_assignment(t, p, e, q);
    lemma_up_to_expression(t, p, e, q);
}

/// Each of `<`, `>`, `<=` and `>=` is a comparison operator: two numbers
/// with one of them between, before a `;`, parse as an expression that is
/// that binary comparison of the two numbers, and the expression takes the
/// three tokens.
#[verifier::spinoff_prover]
pub proof fn lemma_comparison_parses(t: Seq<TokenView>, p: int)
    requires
        0 <= p,
        p + 3 < t.len(),
        t[p].token_type == TokenType::Number,
        t[p + 1].token_type == TokenType::Less || t[p + 1].token_type == TokenType::Greater || t[p + 1].token_type
            == TokenType::LessEqual || t[p + 1].token_type == TokenType::GreaterEqual,
        t[p + 2].token_type == TokenType::Number,
        t[p + 3].token_type == TokenType::Semicolon,
    ensures
        expression(t, p) == Ok::<(ExprView, int), (ParseErrorView, int)>(
            (
                ExprView::Binary {
                    left: Box::new(ExprView::Literal { value: t[p] }),
                    operator: t[p + 1],
                    right: Box::new(ExprView::Literal { value: t[p + 2] }),
                },
                p + 3,
            ),
        ),
{
    let b = ExprView::Binary {
        left: Box::new(ExprView::Literal { value: t[p] }),
        operator: t[p + 1],
        right: Box::new(ExprView::Literal { value: t[p + 2] }),
    };
    lemma_number_operand(t, p);
    lemma_number_operand(t, p + 2);
    assert(comparison_rest(t, b, p + 3) == Ok::<(ExprView, int), (ParseErrorView, int)>((b, p + 3))) by {
        reveal_with_fuel(comparison_rest, 1);
    }
    assert(comparison_rest(t, ExprView::Literal { value: t[p] }, p + 1) == Ok::<(ExprView, int), (ParseErrorView, int)>((b, p + 3))) by {
        reveal_with_fuel(comparison_rest, 1);
    }
    assert(comparison(t, p) == Ok::<(ExprView, int), (ParseErrorView, int)>((b, p + 3))) by {
        reveal_with_fuel(comparison, 1);
    }
    lemma_comparison_is_expression(t, p, b, p + 3);
}

} // verus!
