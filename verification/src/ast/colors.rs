//! The colored printer differs from the plain one by color escapes alone:
//! removing them from the colored output gives the plain output.
use vstd::prelude::*;
use crate::ast::printer::{
    close_text, color_text, deeper, joined, open_text, show_args, show_expr, show_literal, show_stmt, show_stmts, txt,
    PieceView,
};
use crate::ast::expr::ExprView;
use crate::ast::statement::StatementView;

verus! {

/// The escape character that starts a color code.
pub open spec fn is_escape(c: char) -> bool {
    c == '\x1b'
}

/// Whether a character is a decimal digit.
pub open spec fn is_code_digit(c: char) -> bool {
    '0' <= c && c <= '9'
}

/// The length of the color code a text starts with (escape, `[`, one or two
/// digits, `m`), or 0 when it starts with none.
pub open spec fn code_length(t: Seq<char>) -> int {
    if t.len() >= 4 && is_escape(t[0]) && t[1] == '[' && is_code_digit(t[2]) && t[3] == 'm' {
        4
    } else if t.len() >= 5 && is_escape(t[0]) && t[1] == '[' && is_code_digit(t[2]) && is_code_digit(t[3])
        && t[4] == 'm' {
        5
    } else {
        0
    }
}

/// A text with every color code removed.
pub open spec fn strip_colors(t: Seq<char>) -> Seq<char>
    decreases t.len(),
{
    if t.len() == 0 {
        t
    } else if code_length(t) > 0 {
        strip_colors(t.subrange(code_length(t), t.len() as int))
    } else {
        seq![t[0]] + strip_colors(t.subrange(1, t.len() as int))
    }
}

/// Whether a text holds no escape character.
pub open spec fn escape_free(t: Seq<char>) -> bool {
    forall|i: int| 0 <= i < t.len() ==> !is_escape(#[trigger] t[i])
}

/// A text without escapes is kept by the removal, and what follows it is
/// treated on its own.
pub proof fn lemma_strip_escape_free(x: Seq<char>, y: Seq<char>)
    requires
        escape_free(x),
    ensures
        strip_colors(x + y) == x + strip_colors(y),
    decreases x.len(),
{
    if x.len() > 0 {
        let t = x + y;
        assert(t[0] == x[0]);
        assert(!is_escape(x[0]));
        assert(code_length(t) == 0);
        let rest = x.subrange(1, x.len() as int);
        assert(t.subrange(1, t.len() as int) =~= rest + y);
        assert forall|i: int| 0 <= i < rest.len() implies !is_escape(#[trigger] rest[i]) by {
            assert(rest[i] == x[i + 1]);
        }
        lemma_strip_escape_free(rest, y);
        assert(seq![x[0]] + (rest + y) =~= t) by {
            assert(seq![x[0]] + rest =~= x);
        }
        assert(x + strip_colors(y) =~= seq![x[0]] + (rest + strip_colors(y)));
    } else {
        assert(x + y =~= y);
        assert(x + strip_colors(y) =~= strip_colors(y));
    }
}

/// A text without escapes is kept by the removal.
pub proof fn lemma_strip_plain(x: Seq<char>)
    requires
        escape_free(x),
    ensures
        strip_colors(x) == x,
{
    lemma_strip_escape_free(x, Seq::empty());
    assert(x + Seq::<char>::empty() =~= x);
    assert(strip_colors(Seq::<char>::empty()) =~= Seq::<char>::empty());
}

/// A code at the front is removed.
proof fn lemma_strip_code(code: Seq<char>, y: Seq<char>)
    requires
        code_length(code) == code.len(),
        code.len() > 0,
    ensures
        strip_colors(code + y) == strip_colors(y),
{
    let t = code + y;
    assert(t.subrange(0, code.len() as int) =~= code);
    assert(code_length(t) == code.len());
    assert(t.subrange(code_length(t), t.len() as int) =~= y);
}

/// The codes the printer writes are codes.
proof fn lemma_printer_codes(d: usize)
    ensures
        code_length(color_text(true, d)) == color_text(true, d).len() == 5,
        code_length("\x1b[0m"@) == 4 == "\x1b[0m"@.len(),
{
    reveal_strlit("\x1b[31m");
    reveal_strlit("\x1b[32m");
    reveal_strlit("\x1b[33m");
    reveal_strlit("\x1b[34m");
    reveal_strlit("\x1b[35m");
    reveal_strlit("\x1b[36m");
    reveal_strlit("\x1b[0m");
}

/// An opening parenthesis loses its codes.
pub proof fn lemma_strip_open(d: usize, y: Seq<char>)
    ensures
        strip_colors(open_text(true, d) + y) == "("@ + strip_colors(y),
{
    lemma_printer_codes(d);
    reveal_strlit("(\x1b[0m");
    reveal_strlit("(");
    reveal_strlit("\x1b[0m");
    let reset = "\x1b[0m"@;
    assert("(\x1b[0m"@ =~= "("@ + reset);
    assert(open_text(true, d) + y =~= color_text(true, d) + ("("@ + (reset + y)));
    lemma_strip_code(color_text(true, d), "("@ + (reset + y));
    assert(escape_free("("@));
    lemma_strip_escape_free("("@, reset + y);
    lemma_strip_code(reset, y);
}

/// A closing parenthesis loses its codes.
pub proof fn lemma_strip_close(d: usize, y: Seq<char>)
    ensures
        strip_colors(close_text(true, d) + y) == ")"@ + strip_colors(y),
{
    lemma_printer_codes(d);
    reveal_strlit(")\x1b[0m");
    reveal_strlit(")");
    reveal_strlit("\x1b[0m");
    let reset = "\x1b[0m"@;
    assert(")\x1b[0m"@ =~= ")"@ + reset);
    assert(close_text(true, d) + y =~= color_text(true, d) + (")"@ + (reset + y)));
    lemma_strip_code(color_text(true, d), ")"@ + (reset + y));
    assert(escape_free(")"@));
    lemma_strip_escape_free(")"@, reset + y);
    lemma_strip_code(reset, y);
}

/// A text that stands between the parentheses of the printed form.
proof fn lemma_escape_free_split(a: Seq<char>, b: Seq<char>)
    ensures
        escape_free(a + b) == (escape_free(a) && escape_free(b)),
{
    if escape_free(a + b) {
        assert forall|i: int| 0 <= i < a.len() implies !is_escape(#[trigger] a[i]) by {
            assert(a[i] == (a + b)[i]);
        }
        assert forall|i: int| 0 <= i < b.len() implies !is_escape(#[trigger] b[i]) by {
            assert(b[i] == (a + b)[a.len() + i]);
        }
    }
}

/// An opening text loses its codes.
proof fn lemma_text_open(d: usize, a: Seq<char>)
    requires
        escape_free(open_text(false, d) + a),
    ensures
        strip_colors(open_text(true, d) + a) == open_text(false, d) + a,
{
    lemma_escape_free_split(open_text(false, d), a);
    lemma_strip_open(d, a);
    lemma_strip_plain(a);
}

/// A closing text loses its codes.
proof fn lemma_text_close(d: usize, a: Seq<char>)
    requires
        escape_free(a + close_text(false, d)),
    ensures
        strip_colors(a + close_text(true, d)) == a + close_text(false, d),
{
    lemma_escape_free_split(a, close_text(false, d));
    lemma_strip_escape_free(a, close_text(true, d));
    lemma_strip_close(d, Seq::empty());
    assert(close_text(true, d) + Seq::<char>::empty() =~= close_text(true, d));
    assert(strip_colors(Seq::<char>::empty()) =~= Seq::<char>::empty());
    assert(")"@ + Seq::<char>::empty() =~= ")"@);
}

/// A text in parentheses loses its codes.
proof fn lemma_text_both(d: usize, a: Seq<char>)
    requires
        escape_free(open_text(false, d) + a + close_text(false, d)),
    ensures
        strip_colors(open_text(true, d) + a + close_text(true, d)) == open_text(false, d) + a + close_text(
            false,
            d,
        ),
{
    lemma_escape_free_split(open_text(false, d) + a, close_text(false, d));
    lemma_escape_free_split(open_text(false, d), a);
    assert(open_text(false, d) + a + close_text(false, d) =~= open_text(false, d) + (a + close_text(false, d)));
    lemma_escape_free_split(open_text(false, d), a + close_text(false, d));
    assert(open_text(true, d) + a + close_text(true, d) =~= open_text(true, d) + (a + close_text(true, d)));
    lemma_strip_open(d, a + close_text(true, d));
    lemma_text_close(d, a);
}

/// A piece with its color codes removed.
pub open spec fn strip_piece(p: PieceView) -> PieceView {
    match p {
        PieceView::Text(t) => PieceView::Text(strip_colors(t)),
        PieceView::Number(n) => PieceView::Number(n),
    }
}

/// Printed pieces with their color codes removed.
pub open spec fn uncolored(ps: Seq<PieceView>) -> Seq<PieceView> {
    ps.map_values(|p: PieceView| strip_piece(p))
}

/// Whether no printed text holds an escape character.
pub open spec fn pieces_escape_free(ps: Seq<PieceView>) -> bool {
    forall|j: int| 0 <= j < ps.len() ==> (#[trigger] ps[j] matches PieceView::Text(t) ==> escape_free(t))
}

proof fn lemma_pieces_split(a: Seq<PieceView>, b: Seq<PieceView>)
    ensures
        uncolored(a + b) == uncolored(a) + uncolored(b),
        pieces_escape_free(a + b) == (pieces_escape_free(a) && pieces_escape_free(b)),
{
    assert(uncolored(a + b) =~= uncolored(a) + uncolored(b));
    if pieces_escape_free(a + b) {
        assert forall|j: int| 0 <= j < a.len() implies (#[trigger] a[j] matches PieceView::Text(t) ==> escape_free(t)) by {
            assert(a[j] == (a + b)[j]);
        }
        assert forall|j: int| 0 <= j < b.len() implies (#[trigger] b[j] matches PieceView::Text(t) ==> escape_free(t)) by {
            assert(b[j] == (a + b)[a.len() + j]);
        }
    }
    if pieces_escape_free(a) && pieces_escape_free(b) {
        assert forall|j: int| 0 <= j < (a + b).len() implies (#[trigger] (a + b)[j] matches PieceView::Text(t) ==> escape_free(t)) by {
            if j < a.len() {
                assert((a + b)[j] == a[j]);
            } else {
                assert((a + b)[j] == b[j - a.len()]);
            }
        }
    }
}

proof fn lemma_pieces_split3(a: Seq<PieceView>, b: Seq<PieceView>, c: Seq<PieceView>)
    ensures
        uncolored(a + b + c) == uncolored(a) + uncolored(b) + uncolored(c),
        pieces_escape_free(a + b + c) == (pieces_escape_free(a) && pieces_escape_free(b) && pieces_escape_free(c)),
{
    lemma_pieces_split(a + b, c);
    lemma_pieces_split(a, b);
}

proof fn lemma_pieces_split4(a: Seq<PieceView>, b: Seq<PieceView>, c: Seq<PieceView>, d: Seq<PieceView>)
    ensures
        uncolored(a + b + c + d) == uncolored(a) + uncolored(b) + uncolored(c) + uncolored(d),
        pieces_escape_free(a + b + c + d) == (pieces_escape_free(a) && pieces_escape_free(b) && pieces_escape_free(c)
            && pieces_escape_free(d)),
{
    lemma_pieces_split(a + b + c, d);
    lemma_pieces_split3(a, b, c);
}

proof fn lemma_pieces_split5(
    a: Seq<PieceView>,
    b: Seq<PieceView>,
    c: Seq<PieceView>,
    d: Seq<PieceView>,
    e: Seq<PieceView>,
)
    ensures
        uncolored(a + b + c + d + e) == uncolored(a) + uncolored(b) + uncolored(c) + uncolored(d) + uncolored(e),
        pieces_escape_free(a + b + c + d + e) == (pieces_escape_free(a) && pieces_escape_free(b) && pieces_escape_free(
            c,
        ) && pieces_escape_free(d) && pieces_escape_free(e)),
{
    lemma_pieces_split(a + b + c + d, e);
    lemma_pieces_split4(a, b, c, d);
}

/// A single text piece.
proof fn lemma_txt(t: Seq<char>)
    ensures
        uncolored(txt(t)) == txt(strip_colors(t)),
        pieces_escape_free(txt(t)) == escape_free(t),
{
    assert(uncolored(txt(t)) =~= txt(strip_colors(t)));
    assert(txt(t)[0] == PieceView::Text(t));
}

/// A text piece opening a form.
proof fn lemma_piece_open(d: usize, a: Seq<char>)
    requires
        pieces_escape_free(txt(open_text(false, d) + a)),
    ensures
        uncolored(txt(open_text(true, d) + a)) == txt(open_text(false, d) + a),
{
    lemma_txt(open_text(false, d) + a);
    lemma_txt(open_text(true, d) + a);
    lemma_text_open(d, a);
}

/// A whole form in one text piece.
proof fn lemma_piece_both(d: usize, a: Seq<char>)
    requires
        pieces_escape_free(txt(open_text(false, d) + a + close_text(false, d))),
    ensures
        uncolored(txt(open_text(true, d) + a + close_text(true, d))) == txt(open_text(false, d) + a + close_text(
            false,
            d,
        )),
{
    lemma_txt(open_text(false, d) + a + close_text(false, d));
    lemma_txt(open_text(true, d) + a + close_text(true, d));
    lemma_text_both(d, a);
}

/// A text piece closing a form.
proof fn lemma_piece_close(d: usize, a: Seq<char>)
    requires
        pieces_escape_free(txt(a + close_text(false, d))),
    ensures
        uncolored(txt(a + close_text(true, d))) == txt(a + close_text(false, d)),
{
    lemma_txt(a + close_text(false, d));
    lemma_txt(a + close_text(true, d));
    lemma_text_close(d, a);
}

/// The closing parenthesis alone.
proof fn lemma_piece_end(d: usize)
    ensures
        uncolored(txt(close_text(true, d))) == txt(close_text(false, d)),
        pieces_escape_free(txt(close_text(false, d))),
{
    reveal_strlit(")");
    assert(Seq::<char>::empty() + close_text(false, d) =~= close_text(false, d));
    assert(Seq::<char>::empty() + close_text(true, d) =~= close_text(true, d));
    lemma_txt(close_text(false, d));
    assert(escape_free(close_text(false, d)));
    lemma_piece_close(d, Seq::empty());
}

/// A text piece without codes.
proof fn lemma_piece_plain(t: Seq<char>)
    requires
        pieces_escape_free(txt(t)),
    ensures
        uncolored(txt(t)) == txt(t),
{
    lemma_txt(t);
    lemma_strip_plain(t);
}

/// Removing the color codes from the colored form of an expression gives
/// its plain form, when no text in the plain form holds an escape.
pub proof fn lemma_uncolored_expr(e: ExprView, d: usize)
    requires
        pieces_escape_free(show_expr(e, d, false)),
    ensures
        uncolored(show_expr(e, d, true)) == show_expr(e, d, false),
    decreases e,
{
    let oc = open_text(true, d);
    let zc = close_text(true, d);
    let op = open_text(false, d);
    let zp = close_text(false, d);
    let n = deeper(d);
    lemma_piece_end(d);
    match e {
        ExprView::Binary { left, operator, right } => {
            assert(oc + operator.lexeme + " "@ =~= oc + (operator.lexeme + " "@));
            assert(op + operator.lexeme + " "@ =~= op + (operator.lexeme + " "@));
            lemma_pieces_split5(txt(op + operator.lexeme + " "@), show_expr(*left, n, false), txt(" "@), show_expr(*right, n, false), txt(zp));
            lemma_pieces_split5(txt(oc + operator.lexeme + " "@), show_expr(*left, n, true), txt(" "@), show_expr(*right, n, true), txt(zc));
            lemma_piece_open(d, operator.lexeme + " "@);
            lemma_piece_plain(" "@);
            lemma_uncolored_expr(*left, n);
            lemma_uncolored_expr(*right, n);
        },
        ExprView::Literal { value } => {
            let ps = show_literal(value);
            assert(uncolored(ps) =~= ps) by {
                match value.literal {
                    Some(crate::lexer::token::LiteralView::String(t)) => {
                        lemma_piece_plain(t);
                    },
                    Some(crate::lexer::token::LiteralView::Boolean(b)) => {
                        lemma_piece_plain(if b { "true"@ } else { "false"@ });
                    },
                    Some(crate::lexer::token::LiteralView::Number(_)) => {},
                    _ => {
                        lemma_piece_plain("nil"@);
                    },
                }
            }
        },
        ExprView::Grouping { expression } => {
            lemma_pieces_split3(txt(op + "group "@), show_expr(*expression, n, false), txt(zp));
            lemma_pieces_split3(txt(oc + "group "@), show_expr(*expression, n, true), txt(zc));
            lemma_piece_open(d, "group "@);
            lemma_uncolored_expr(*expression, n);
        },
        ExprView::Unary { operator, right } => {
            assert(oc + operator.lexeme + " "@ =~= oc + (operator.lexeme + " "@));
            assert(op + operator.lexeme + " "@ =~= op + (operator.lexeme + " "@));
            lemma_pieces_split3(txt(op + operator.lexeme + " "@), show_expr(*right, n, false), txt(zp));
            lemma_pieces_split3(txt(oc + operator.lexeme + " "@), show_expr(*right, n, true), txt(zc));
            lemma_piece_open(d, operator.lexeme + " "@);
            lemma_uncolored_expr(*right, n);
        },
        ExprView::Variable { name, .. } => {
            assert(oc + "var "@ + name.lexeme + zc =~= oc + ("var "@ + name.lexeme) + zc);
            assert(op + "var "@ + name.lexeme + zp =~= op + ("var "@ + name.lexeme) + zp);
            lemma_piece_both(d, "var "@ + name.lexeme);
        },
        ExprView::Assign { name, value, .. } => {
            assert(oc + "assign "@ + name.lexeme + " "@ =~= oc + ("assign "@ + name.lexeme + " "@));
            assert(op + "assign "@ + name.lexeme + " "@ =~= op + ("assign "@ + name.lexeme + " "@));
            lemma_pieces_split3(txt(op + "assign "@ + name.lexeme + " "@), show_expr(*value, n, false), txt(zp));
            lemma_pieces_split3(txt(oc + "assign "@ + name.lexeme + " "@), show_expr(*value, n, true), txt(zc));
            lemma_piece_open(d, "assign "@ + name.lexeme + " "@);
            lemma_uncolored_expr(*value, n);
        },
        ExprView::LogicOr { left, right } => {
            lemma_pieces_split5(txt(op + "or "@), show_expr(*left, n, false), txt(" "@), show_expr(*right, n, false), txt(zp));
            lemma_pieces_split5(txt(oc + "or "@), show_expr(*left, n, true), txt(" "@), show_expr(*right, n, true), txt(zc));
            lemma_piece_open(d, "or "@);
            lemma_piece_plain(" "@);
            lemma_uncolored_expr(*left, n);
            lemma_uncolored_expr(*right, n);
        },
        ExprView::LogicAnd { left, right } => {
            lemma_pieces_split5(txt(op + "and "@), show_expr(*left, n, false), txt(" "@), show_expr(*right, n, false), txt(zp));
            lemma_pieces_split5(txt(oc + "and "@), show_expr(*left, n, true), txt(" "@), show_expr(*right, n, true), txt(zc));
            lemma_piece_open(d, "and "@);
            lemma_piece_plain(" "@);
            lemma_uncolored_expr(*left, n);
            lemma_uncolored_expr(*right, n);
        },
        ExprView::Call { callee, arguments, .. } => {
            lemma_pieces_split4(txt(op + "call "@), show_expr(*callee, n, false), show_args(arguments, n, false), txt(zp));
            lemma_pieces_split4(txt(oc + "call "@), show_expr(*callee, n, true), show_args(arguments, n, true), txt(zc));
            lemma_piece_open(d, "call "@);
            lemma_uncolored_expr(*callee, n);
            lemma_uncolored_args(arguments, n);
        },
        ExprView::Lambda { params, body } => {
            assert(oc + "lambda ("@ + joined(params) + ")"@ =~= oc + ("lambda ("@ + joined(params) + ")"@));
            assert(op + "lambda ("@ + joined(params) + ")"@ =~= op + ("lambda ("@ + joined(params) + ")"@));
            lemma_pieces_split3(txt(op + "lambda ("@ + joined(params) + ")"@), show_stmts(body, n, false), txt(zp));
            lemma_pieces_split3(txt(oc + "lambda ("@ + joined(params) + ")"@), show_stmts(body, n, true), txt(zc));
            lemma_piece_open(d, "lambda ("@ + joined(params) + ")"@);
            lemma_uncolored_stmts(body, n);
        },
        ExprView::Get { object, name } => {
            lemma_pieces_split3(txt(op + "get "@), show_expr(*object, n, false), txt(" ."@ + name.lexeme + zp));
            lemma_pieces_split3(txt(oc + "get "@), show_expr(*object, n, true), txt(" ."@ + name.lexeme + zc));
            lemma_piece_open(d, "get "@);
            lemma_piece_close(d, " ."@ + name.lexeme);
            lemma_uncolored_expr(*object, n);
        },
        ExprView::SetProperty { object, name, value } => {
            lemma_pieces_split5(txt(op + "set "@), show_expr(*object, n, false), txt(" ."@ + name.lexeme + " "@), show_expr(*value, n, false), txt(zp));
            lemma_pieces_split5(txt(oc + "set "@), show_expr(*object, n, true), txt(" ."@ + name.lexeme + " "@), show_expr(*value, n, true), txt(zc));
            lemma_piece_open(d, "set "@);
            lemma_piece_plain(" ."@ + name.lexeme + " "@);
            lemma_uncolored_expr(*object, n);
            lemma_uncolored_expr(*value, n);
        },
        ExprView::This { keyword, .. } => {
            assert(oc + "this "@ + keyword.lexeme + zc =~= oc + ("this "@ + keyword.lexeme) + zc);
            assert(op + "this "@ + keyword.lexeme + zp =~= op + ("this "@ + keyword.lexeme) + zp);
            lemma_piece_both(d, "this "@ + keyword.lexeme);
        },
    }
}

/// The same for call arguments.
pub proof fn lemma_uncolored_args(es: Seq<ExprView>, d: usize)
    requires
        pieces_escape_free(show_args(es, d, false)),
    ensures
        uncolored(show_args(es, d, true)) == show_args(es, d, false),
    decreases es,
{
    if es.len() == 0 {
        assert(uncolored(Seq::<PieceView>::empty()) =~= Seq::<PieceView>::empty());
    } else {
        lemma_pieces_split3(show_args(es.drop_last(), d, false), txt(" "@), show_expr(es.last(), d, false));
        lemma_pieces_split3(show_args(es.drop_last(), d, true), txt(" "@), show_expr(es.last(), d, true));
        lemma_piece_plain(" "@);
        lemma_uncolored_args(es.drop_last(), d);
        lemma_uncolored_expr(es.last(), d);
    }
}

/// The same for statements.
pub proof fn lemma_uncolored_stmts(ss: Seq<StatementView>, d: usize)
    requires
        pieces_escape_free(show_stmts(ss, d, false)),
    ensures
        uncolored(show_stmts(ss, d, true)) == show_stmts(ss, d, false),
    decreases ss,
{
    if ss.len() == 0 {
        assert(uncolored(Seq::<PieceView>::empty()) =~= Seq::<PieceView>::empty());
    } else {
        lemma_pieces_split3(show_stmts(ss.drop_last(), d, false), txt(" "@), show_stmt(ss.last(), d, false));
        lemma_pieces_split3(show_stmts(ss.drop_last(), d, true), txt(" "@), show_stmt(ss.last(), d, true));
        lemma_piece_plain(" "@);
        lemma_uncolored_stmts(ss.drop_last(), d);
        lemma_uncolored_stmt(ss.last(), d);
    }
}

/// The same for one statement.
pub proof fn lemma_uncolored_stmt(s: StatementView, d: usize)
    requires
        pieces_escape_free(show_stmt(s, d, false)),
    ensures
        uncolored(show_stmt(s, d, true)) == show_stmt(s, d, false),
    decreases s,
{
    let oc = open_text(true, d);
    let zc = close_text(true, d);
    let op = open_text(false, d);
    let zp = close_text(false, d);
    let n = deeper(d);
    lemma_piece_end(d);
    match s {
        StatementView::Expression { expression } => {
            lemma_pieces_split3(txt(op + "expr "@), show_expr(expression, n, false), txt(zp));
            lemma_pieces_split3(txt(oc + "expr "@), show_expr(expression, n, true), txt(zc));
            lemma_piece_open(d, "expr "@);
            lemma_uncolored_expr(expression, n);
        },
        StatementView::Print { expression } => {
            lemma_pieces_split3(txt(op + "print "@), show_expr(expression, n, false), txt(zp));
            lemma_pieces_split3(txt(oc + "print "@), show_expr(expression, n, true), txt(zc));
            lemma_piece_open(d, "print "@);
            lemma_uncolored_expr(expression, n);
        },
        StatementView::Var { name, initializer } => {
            match initializer {
                Some(init) => {
                    assert(oc + "var "@ + name.lexeme + " = "@ =~= oc + ("var "@ + name.lexeme + " = "@));
                    assert(op + "var "@ + name.lexeme + " = "@ =~= op + ("var "@ + name.lexeme + " = "@));
                    lemma_pieces_split3(txt(op + "var "@ + name.lexeme + " = "@), show_expr(init, n, false), txt(zp));
                    lemma_pieces_split3(txt(oc + "var "@ + name.lexeme + " = "@), show_expr(init, n, true), txt(zc));
                    lemma_piece_open(d, "var "@ + name.lexeme + " = "@);
                    lemma_uncolored_expr(init, n);
                },
                None => {
                    assert(oc + "var "@ + name.lexeme + " = nil"@ + zc =~= oc + ("var "@ + name.lexeme + " = nil"@) + zc);
                    assert(op + "var "@ + name.lexeme + " = nil"@ + zp =~= op + ("var "@ + name.lexeme + " = nil"@) + zp);
                    lemma_piece_both(d, "var "@ + name.lexeme + " = nil"@);
                },
            }
        },
        StatementView::Block { statements } => {
            lemma_pieces_split3(txt(op + "block"@), show_stmts(statements, n, false), txt(zp));
            lemma_pieces_split3(txt(oc + "block"@), show_stmts(statements, n, true), txt(zc));
            lemma_piece_open(d, "block"@);
            lemma_uncolored_stmts(statements, n);
        },
        StatementView::If { condition, then_branch, else_branch } => {
            let tail_p = match else_branch {
                Some(b) => txt(" "@) + show_stmt(*b, n, false),
                None => Seq::<PieceView>::empty(),
            };
            let tail_c = match else_branch {
                Some(b) => txt(" "@) + show_stmt(*b, n, true),
                None => Seq::<PieceView>::empty(),
            };
            lemma_pieces_split5(txt(op + "if "@), show_expr(condition, n, false), txt(" "@), show_stmt(*then_branch, n, false), tail_p);
            lemma_pieces_split(txt(op + "if "@) + show_expr(condition, n, false) + txt(" "@) + show_stmt(*then_branch, n, false) + tail_p, txt(zp));
            lemma_pieces_split5(txt(oc + "if "@), show_expr(condition, n, true), txt(" "@), show_stmt(*then_branch, n, true), tail_c);
            lemma_pieces_split(txt(oc + "if "@) + show_expr(condition, n, true) + txt(" "@) + show_stmt(*then_branch, n, true) + tail_c, txt(zc));
            lemma_piece_open(d, "if "@);
            lemma_piece_plain(" "@);
            lemma_uncolored_expr(condition, n);
            lemma_uncolored_stmt(*then_branch, n);
            match else_branch {
                Some(b) => {
                    lemma_pieces_split(txt(" "@), show_stmt(*b, n, false));
                    lemma_pieces_split(txt(" "@), show_stmt(*b, n, true));
                    lemma_uncolored_stmt(*b, n);
                },
                None => {
                    assert(uncolored(Seq::<PieceView>::empty()) =~= Seq::<PieceView>::empty());
                },
            }
        },
        StatementView::While { condition, body } => {
            lemma_pieces_split5(txt(op + "while "@), show_expr(condition, n, false), txt(" "@), show_stmt(*body, n, false), txt(zp));
            lemma_pieces_split5(txt(oc + "while "@), show_expr(condition, n, true), txt(" "@), show_stmt(*body, n, true), txt(zc));
            lemma_piece_open(d, "while "@);
            lemma_piece_plain(" "@);
            lemma_uncolored_expr(condition, n);
            lemma_uncolored_stmt(*body, n);
        },
        StatementView::Function { name, params, body, .. } => {
            let a = "fun "@ + name.lexeme + " ("@ + joined(params) + ")"@;
            assert(oc + "fun "@ + name.lexeme + " ("@ + joined(params) + ")"@ =~= oc + a);
            assert(op + "fun "@ + name.lexeme + " ("@ + joined(params) + ")"@ =~= op + a);
            lemma_pieces_split3(txt(op + a), show_stmts(body, n, false), txt(zp));
            lemma_pieces_split3(txt(oc + a), show_stmts(body, n, true), txt(zc));
            lemma_piece_open(d, a);
            lemma_uncolored_stmts(body, n);
        },
        StatementView::Return { value, .. } => {
            match value {
                Some(v) => {
                    lemma_pieces_split3(txt(op + "return "@), show_expr(v, n, false), txt(zp));
                    lemma_pieces_split3(txt(oc + "return "@), show_expr(v, n, true), txt(zc));
                    lemma_piece_open(d, "return "@);
                    lemma_uncolored_expr(v, n);
                },
                None => {
                    lemma_piece_both(d, "return"@);
                },
            }
        },
        StatementView::Class { name, superclass, methods, static_fields, static_methods } => {
            let head_p = match superclass {
                Some(sup) => txt(op + "class "@ + name.lexeme + " "@ + "< "@) + show_expr(sup, n, false),
                None => txt(op + "class "@ + name.lexeme + " "@),
            };
            let head_c = match superclass {
                Some(sup) => txt(oc + "class "@ + name.lexeme + " "@ + "< "@) + show_expr(sup, n, true),
                None => txt(oc + "class "@ + name.lexeme + " "@),
            };
            lemma_pieces_split5(head_p, show_stmts(methods, n, false), show_stmts(static_fields, n, false), show_stmts(static_methods, n, false), txt(zp));
            lemma_pieces_split5(head_c, show_stmts(methods, n, true), show_stmts(static_fields, n, true), show_stmts(static_methods, n, true), txt(zc));
            lemma_uncolored_stmts(methods, n);
            lemma_uncolored_stmts(static_fields, n);
            lemma_uncolored_stmts(static_methods, n);
            match superclass {
                Some(sup) => {
                    let a = "class "@ + name.lexeme + " "@ + "< "@;
                    assert(oc + "class "@ + name.lexeme + " "@ + "< "@ =~= oc + a);
                    assert(op + "class "@ + name.lexeme + " "@ + "< "@ =~= op + a);
                    lemma_pieces_split(txt(op + a), show_expr(sup, n, false));
                    lemma_pieces_split(txt(oc + a), show_expr(sup, n, true));
                    lemma_piece_open(d, a);
                    lemma_uncolored_expr(sup, n);
                },
                None => {
                    let a = "class "@ + name.lexeme + " "@;
                    assert(oc + "class "@ + name.lexeme + " "@ =~= oc + a);
                    assert(op + "class "@ + name.lexeme + " "@ =~= op + a);
                    lemma_piece_open(d, a);
                },
            }
        },
    }
}

} // verus!
