//! Printing syntax trees in parenthesized prefix form, optionally with the
//! parentheses colored by depth.
use vstd::prelude::*;
use crate::lexer::token::{token_type_name, LiteralView, Literal, Token, TokenView};
use crate::text::shouty_snake_case;
use crate::ast::expr::{Expr, ExprView, exprs_view, lemma_exprs_view_index};
use crate::ast::statement::{Statement, StatementView, statements_view, lemma_statements_view_index};
use crate::text::append_str;

verus! {

/// A piece of printed text: text, or a number literal's double, to be
/// written with one decimal place when it is integral and in the shortest
/// form that reads back as the same double otherwise.
#[derive(Debug)]
pub enum Piece {
    Text(String),
    Number(u64),
}

/// The mathematical view of a piece.
pub enum PieceView {
    Text(Seq<char>),
    Number(u64),
}

impl View for Piece {
    type V = PieceView;

    open spec fn view(&self) -> PieceView {
        match self {
            Piece::Text(s) => PieceView::Text(s@),
            Piece::Number(n) => PieceView::Number(*n),
        }
    }
}

/// The views of pieces.
pub open spec fn pieces_view(ps: Seq<Piece>) -> Seq<PieceView> {
    ps.map_values(|p: Piece| p@)
}

/// One piece of text.
pub open spec fn txt(s: Seq<char>) -> Seq<PieceView> {
    seq![PieceView::Text(s)]
}

/// The depth below `d`; it stays at the largest depth.
pub open spec fn deeper(d: usize) -> usize {
    if d < usize::MAX {
        (d + 1) as usize
    } else {
        d
    }
}

/// The color escape for a depth (a palette of six), none without colors.
pub open spec fn color_text(colors: bool, depth: usize) -> Seq<char> {
    if !colors {
        ""@
    } else if depth % 6 == 0 {
        "\x1b[31m"@
    } else if depth % 6 == 1 {
        "\x1b[32m"@
    } else if depth % 6 == 2 {
        "\x1b[33m"@
    } else if depth % 6 == 3 {
        "\x1b[34m"@
    } else if depth % 6 == 4 {
        "\x1b[35m"@
    } else {
        "\x1b[36m"@
    }
}

/// The opening parenthesis at a depth.
pub open spec fn open_text(colors: bool, depth: usize) -> Seq<char> {
    if !colors {
        "("@
    } else {
        color_text(colors, depth) + "(\x1b[0m"@
    }
}

/// The closing parenthesis at a depth.
pub open spec fn close_text(colors: bool, depth: usize) -> Seq<char> {
    if !colors {
        ")"@
    } else {
        color_text(colors, depth) + ")\x1b[0m"@
    }
}

/// How a literal prints: a number as its double, a string as its
/// characters, `true`, `false` or `nil`.
pub open spec fn show_literal(tok: TokenView) -> Seq<PieceView> {
    match tok.literal {
        Some(LiteralView::Number(n)) => seq![PieceView::Number(n)],
        Some(LiteralView::String(s)) => txt(s),
        Some(LiteralView::Boolean(b)) => txt(if b { "true"@ } else { "false"@ }),
        _ => txt("nil"@),
    }
}

/// Lexemes joined by single spaces.
pub open spec fn joined(ts: Seq<TokenView>) -> Seq<char>
    decreases ts.len(),
{
    if ts.len() == 0 {
        Seq::empty()
    } else if ts.len() == 1 {
        ts[0].lexeme
    } else {
        joined(ts.drop_last()) + " "@ + ts.last().lexeme
    }
}

/// How an expression prints at a depth.
pub open spec fn show_expr(e: ExprView, d: usize, c: bool) -> Seq<PieceView>
    decreases e,
{
    let o = open_text(c, d);
    let z = close_text(c, d);
    let n = deeper(d);
    match e {
        ExprView::Binary { left, operator, right } => txt(o + operator.lexeme + " "@) + show_expr(*left, n, c) + txt(
            " "@,
        ) + show_expr(*right, n, c) + txt(z),
        ExprView::Literal { value } => show_literal(value),
        ExprView::Grouping { expression } => txt(o + "group "@) + show_expr(*expression, n, c) + txt(z),
        ExprView::Unary { operator, right } => txt(o + operator.lexeme + " "@) + show_expr(*right, n, c) + txt(z),
        ExprView::Variable { name, .. } => txt(o + "var "@ + name.lexeme + z),
        ExprView::Assign { name, value, .. } => txt(o + "assign "@ + name.lexeme + " "@) + show_expr(*value, n, c)
            + txt(z),
        ExprView::LogicOr { left, right } => txt(o + "or "@) + show_expr(*left, n, c) + txt(" "@) + show_expr(
            *right,
            n,
            c,
        ) + txt(z),
        ExprView::LogicAnd { left, right } => txt(o + "and "@) + show_expr(*left, n, c) + txt(" "@) + show_expr(
            *right,
            n,
            c,
        ) + txt(z),
        ExprView::Call { callee, arguments, .. } => txt(o + "call "@) + show_expr(*callee, n, c) + show_args(
            arguments,
            n,
            c,
        ) + txt(z),
        ExprView::Lambda { params, body } => txt(o + "lambda ("@ + joined(params) + ")"@) + show_stmts(body, n, c)
            + txt(z),
        ExprView::Get { object, name } => txt(o + "get "@) + show_expr(*object, n, c) + txt(" ."@ + name.lexeme + z),
        ExprView::SetProperty { object, name, value } => txt(o + "set "@) + show_expr(*object, n, c) + txt(
            " ."@ + name.lexeme + " "@,
        ) + show_expr(*value, n, c) + txt(z),
        ExprView::This { keyword, .. } => txt(o + "this "@ + keyword.lexeme + z),
    }
}

/// Arguments, each after a space.
pub open spec fn show_args(es: Seq<ExprView>, d: usize, c: bool) -> Seq<PieceView>
    decreases es,
{
    if es.len() == 0 {
        Seq::empty()
    } else {
        show_args(es.drop_last(), d, c) + txt(" "@) + show_expr(es.last(), d, c)
    }
}

/// Statements, each after a space.
pub open spec fn show_stmts(ss: Seq<StatementView>, d: usize, c: bool) -> Seq<PieceView>
    decreases ss,
{
    if ss.len() == 0 {
        Seq::empty()
    } else {
        show_stmts(ss.drop_last(), d, c) + txt(" "@) + show_stmt(ss.last(), d, c)
    }
}

/// How a statement prints at a depth.
pub open spec fn show_stmt(s: StatementView, d: usize, c: bool) -> Seq<PieceView>
    decreases s,
{
    let o = open_text(c, d);
    let z = close_text(c, d);
    let n = deeper(d);
    match s {
        StatementView::Expression { expression } => txt(o + "expr "@) + show_expr(expression, n, c) + txt(z),
        StatementView::Print { expression } => txt(o + "print "@) + show_expr(expression, n, c) + txt(z),
        StatementView::Var { name, initializer } => match initializer {
            Some(init) => txt(o + "var "@ + name.lexeme + " = "@) + show_expr(init, n, c) + txt(z),
            None => txt(o + "var "@ + name.lexeme + " = nil"@ + z),
        },
        StatementView::Block { statements } => txt(o + "block"@) + show_stmts(statements, n, c) + txt(z),
        StatementView::If { condition, then_branch, else_branch } => txt(o + "if "@) + show_expr(condition, n, c)
            + txt(" "@) + show_stmt(*then_branch, n, c) + (match else_branch {
            Some(b) => txt(" "@) + show_stmt(*b, n, c),
            None => Seq::empty(),
        }) + txt(z),
        StatementView::While { condition, body } => txt(o + "while "@) + show_expr(condition, n, c) + txt(" "@)
            + show_stmt(*body, n, c) + txt(z),
        StatementView::Function { name, params, body, .. } => txt(
            o + "fun "@ + name.lexeme + " ("@ + joined(params) + ")"@,
        ) + show_stmts(body, n, c) + txt(z),
        StatementView::Return { value, .. } => match value {
            Some(v) => txt(o + "return "@) + show_expr(v, n, c) + txt(z),
            None => txt(o + "return"@ + z),
        },
        StatementView::Class { name, superclass, methods, static_fields, static_methods } => (match superclass {
            Some(sup) => txt(o + "class "@ + name.lexeme + " "@ + "< "@) + show_expr(sup, n, c),
            None => txt(o + "class "@ + name.lexeme + " "@),
        }) + show_stmts(methods, n, c) + show_stmts(static_fields, n, c) + show_stmts(static_methods, n, c) + txt(z),
    }
}

/// A printer of syntax trees: the current depth, whether it colors
/// parentheses, and the pieces printed so far.
pub struct AstPrinter {
    depth: usize,
    use_colors: bool,
    out: Vec<Piece>,
}

impl AstPrinter {
    /// The pieces printed so far.
    pub closed spec fn printed(&self) -> Seq<PieceView> {
        pieces_view(self.out@)
    }

    /// The current depth.
    pub closed spec fn level(&self) -> usize {
        self.depth
    }

    /// Whether the printer colors parentheses.
    pub closed spec fn colored(&self) -> bool {
        self.use_colors
    }

    /// A printer without colors.
    pub fn new() -> (r: Self)
        ensures
            r.level() == 0,
            !r.colored(),
            r.printed() == Seq::<PieceView>::empty(),
    {
        let r = AstPrinter { depth: 0, use_colors: false, out: Vec::new() };
        assert(r.printed() =~= Seq::<PieceView>::empty());
        r
    }

    /// A printer that colors parentheses by depth.
    pub fn new_colored() -> (r: Self)
        ensures
            r.level() == 0,
            r.colored(),
            r.printed() == Seq::<PieceView>::empty(),
    {
        let r = AstPrinter { depth: 0, use_colors: true, out: Vec::new() };
        assert(r.printed() =~= Seq::<PieceView>::empty());
        r
    }

    /// The color escape for a depth: one of six, cycling; none without
    /// colors.
    pub fn color_code(&self, depth: usize) -> (r: &'static str)
        ensures
            r@ == color_text(self.colored(), depth),
    {
        if !self.use_colors {
            return "";
        }
        let m = depth % 6;
        if m == 0 {
            "\x1b[31m"
        } else if m == 1 {
            "\x1b[32m"
        } else if m == 2 {
            "\x1b[33m"
        } else if m == 3 {
            "\x1b[34m"
        } else if m == 4 {
            "\x1b[35m"
        } else {
            "\x1b[36m"
        }
    }

    /// The opening parenthesis at a depth.
    pub fn colored_open(&self, depth: usize) -> (r: String)
        ensures
            r@ == open_text(self.colored(), depth),
    {
        if !self.use_colors {
            return String::from_str("(");
        }
        let mut s = String::from_str(self.color_code(depth));
        append_str(&mut s, "(\x1b[0m");
        s
    }

    /// The closing parenthesis at a depth.
    pub fn colored_close(&self, depth: usize) -> (r: String)
        ensures
            r@ == close_text(self.colored(), depth),
    {
        if !self.use_colors {
            return String::from_str(")");
        }
        let mut s = String::from_str(self.color_code(depth));
        append_str(&mut s, ")\x1b[0m");
        s
    }

    /// The parentheses at the current depth.
    pub fn get_open_close(&self) -> (r: (String, String))
        ensures
            r.0@ == open_text(self.colored(), self.level()),
            r.1@ == close_text(self.colored(), self.level()),
    {
        (self.colored_open(self.depth), self.colored_close(self.depth))
    }

    /// Appends text.
    fn emit(&mut self, s: String)
        ensures
            final(self).printed() == old(self).printed() + txt(s@),
            final(self).depth == old(self).depth,
            final(self).use_colors == old(self).use_colors,
    {
        self.out.push(Piece::Text(s));
        assert(self.printed() =~= old(self).printed() + txt(s@));
    }

    /// Appends a text made of two parts.
    fn emit2(&mut self, a: &str, b: &str)
        ensures
            final(self).printed() == old(self).printed() + txt(a@ + b@),
            final(self).depth == old(self).depth,
            final(self).use_colors == old(self).use_colors,
    {
        let mut s = String::from_str(a);
        append_str(&mut s, b);
        self.emit(s);
    }

    /// Appends a text made of three parts.
    fn emit3(&mut self, a: &str, b: &str, c: &str)
        ensures
            final(self).printed() == old(self).printed() + txt(a@ + b@ + c@),
            final(self).depth == old(self).depth,
            final(self).use_colors == old(self).use_colors,
    {
        let mut s = String::from_str(a);
        append_str(&mut s, b);
        append_str(&mut s, c);
        self.emit(s);
    }

    /// Goes one level deeper.
    fn descend(&mut self)
        ensures
            final(self).depth == deeper(old(self).depth),
            final(self).use_colors == old(self).use_colors,
            final(self).out == old(self).out,
    {
        if self.depth < usize::MAX {
            self.depth = self.depth + 1;
        }
    }

    /// Takes the pieces printed so far.
    fn take(&mut self) -> (r: Vec<Piece>)
        ensures
            pieces_view(r@) == old(self).printed(),
            final(self).printed() == Seq::<PieceView>::empty(),
            final(self).depth == old(self).depth,
            final(self).use_colors == old(self).use_colors,
    {
        let mut out: Vec<Piece> = Vec::new();
        std::mem::swap(&mut out, &mut self.out);
        assert(self.printed() =~= Seq::<PieceView>::empty());
        out
    }

    /// The printed form of an expression.
    pub fn print_to_string(&mut self, expr: &Expr) -> (r: Vec<Piece>)
        ensures
            pieces_view(r@) == show_expr(expr@, old(self).level(), old(self).colored()),
            final(self).level() == old(self).level(),
            final(self).colored() == old(self).colored(),
    {
        let _ = self.take();
        self.visit_expression(expr);
        assert(self.printed() =~= show_expr(expr@, old(self).level(), old(self).colored()));
        self.take()
    }

    /// The printed form of an expression, as one line.
    pub fn print_expression(&mut self, expr: &Expr) -> (r: Vec<Piece>)
        ensures
            pieces_view(r@) == show_expr(expr@, old(self).level(), old(self).colored()),
            final(self).level() == old(self).level(),
            final(self).colored() == old(self).colored(),
    {
        self.print_to_string(expr)
    }

    /// The printed form of a statement, as one line.
    pub fn print_statement(&mut self, statement: &Statement) -> (r: Vec<Piece>)
        ensures
            pieces_view(r@) == show_stmt(statement@, old(self).level(), old(self).colored()),
            final(self).level() == old(self).level(),
            final(self).colored() == old(self).colored(),
    {
        let _ = self.take();
        self.visit_statement(statement);
        assert(self.printed() =~= show_stmt(statement@, old(self).level(), old(self).colored()));
        self.take()
    }

    /// The printed forms of statements, one line each.
    pub fn print_statements(&mut self, statements: &Vec<Statement>) -> (r: Vec<Vec<Piece>>)
        ensures
            r@.len() == statements@.len(),
            forall|i: int| 0 <= i < r@.len() ==> pieces_view(#[trigger] r@[i]@) == show_stmt(
                statements@[i]@,
                old(self).level(),
                old(self).colored(),
            ),
    {
        let mut lines: Vec<Vec<Piece>> = Vec::new();
        let mut i: usize = 0;
        while i < statements.len()
            invariant
                i <= statements@.len(),
                lines@.len() == i,
                self.level() == old(self).level(),
                self.colored() == old(self).colored(),
                forall|j: int| 0 <= j < i ==> pieces_view(#[trigger] lines@[j]@) == show_stmt(
                    statements@[j]@,
                    old(self).level(),
                    old(self).colored(),
                ),
            decreases statements@.len() - i,
        {
            let line = self.print_statement(&statements[i]);
            lines.push(line);
            i = i + 1;
        }
        lines
    }
}


impl AstPrinter {
    /// Appends how an expression prints at the current depth.
    #[verifier::spinoff_prover]
    #[verifier::rlimit(50)]
    pub fn visit_expression(&mut self, expr: &Expr)
        ensures
            final(self).printed() == old(self).printed() + show_expr(expr@, old(self).level(), old(self).colored()),
            final(self).level() == old(self).level(),
            final(self).colored() == old(self).colored(),
        decreases expr, 1int,
    {
        let ghost before = self.printed();
        let ghost d = self.depth;
        let saved = self.depth;
        let ghost c = self.use_colors;
        let (open, close) = self.get_open_close();
        match expr {
            Expr::Binary { left, operator, right } => {
                self.emit3(open.as_str(), operator.lexeme.as_str(), " ");
                self.descend();
                self.visit_expression(left);
                self.emit(String::from_str(" "));
                self.visit_expression(right);
                self.depth = saved;
                self.emit(close);
                assert(self.printed() =~= before + show_expr(expr@, d, c));
            },
            Expr::Literal { value } => {
                self.visit_literal(value);
                assert(self.printed() =~= before + show_expr(expr@, d, c));
            },
            Expr::Grouping { expression } => {
                self.emit2(open.as_str(), "group ");
                self.descend();
                self.visit_expression(expression);
                self.depth = saved;
                self.emit(close);
                assert(self.printed() =~= before + show_expr(expr@, d, c));
            },
            Expr::Unary { operator, right } => {
                self.emit3(open.as_str(), operator.lexeme.as_str(), " ");
                self.descend();
                self.visit_expression(right);
                self.depth = saved;
                self.emit(close);
                assert(self.printed() =~= before + show_expr(expr@, d, c));
            },
            Expr::Variable { name, .. } => {
                let mut s = open;
                append_str(&mut s, "var ");
                append_str(&mut s, name.lexeme.as_str());
                append_str(&mut s, close.as_str());
                self.emit(s);
                assert(self.printed() =~= before + show_expr(expr@, d, c));
            },
            Expr::Assign { name, value, .. } => {
                let mut s = open;
                append_str(&mut s, "assign ");
                append_str(&mut s, name.lexeme.as_str());
                append_str(&mut s, " ");
                self.emit(s);
                self.descend();
                self.visit_expression(value);
                self.depth = saved;
                self.emit(close);
                assert(self.printed() =~= before + show_expr(expr@, d, c));
            },
            Expr::LogicOr { left, right } => {
                self.emit2(open.as_str(), "or ");
                self.descend();
                self.visit_expression(left);
                self.emit(String::from_str(" "));
                self.visit_expression(right);
                self.depth = saved;
                self.emit(close);
                assert(self.printed() =~= before + show_expr(expr@, d, c));
            },
            Expr::LogicAnd { left, right } => {
                self.emit2(open.as_str(), "and ");
                self.descend();
                self.visit_expression(left);
                self.emit(String::from_str(" "));
                self.visit_expression(right);
                self.depth = saved;
                self.emit(close);
                assert(self.printed() =~= before + show_expr(expr@, d, c));
            },
            Expr::Call { .. } => {
                self.visit_call(expr);
                assert(self.printed() =~= before + show_expr(expr@, d, c));
            },
            Expr::Lambda { .. } => {
                self.visit_lambda(expr);
                assert(self.printed() =~= before + show_expr(expr@, d, c));
            },
            Expr::Get { object, name } => {
                self.emit2(open.as_str(), "get ");
                self.descend();
                self.visit_expression(object);
                self.depth = saved;
                self.emit3(" .", name.lexeme.as_str(), close.as_str());
                assert(self.printed() =~= before + show_expr(expr@, d, c));
            },
            Expr::SetProperty { object, name, value } => {
                self.emit2(open.as_str(), "set ");
                self.descend();
                self.visit_expression(object);
                self.emit3(" .", name.lexeme.as_str(), " ");
                self.visit_expression(value);
                self.depth = saved;
                self.emit(close);
                assert(self.printed() =~= before + show_expr(expr@, d, c));
            },
            Expr::This { keyword, .. } => {
                let mut s = open;
                append_str(&mut s, "this ");
                append_str(&mut s, keyword.lexeme.as_str());
                append_str(&mut s, close.as_str());
                self.emit(s);
                assert(self.printed() =~= before + show_expr(expr@, d, c));
            },
        }
        assert(self.printed() =~= before + show_expr(expr@, d, c));
    }

    /// Appends how a literal prints.
    pub fn visit_literal(&mut self, value: &Token)
        ensures
            final(self).printed() == old(self).printed() + show_literal(value@),
            final(self).level() == old(self).level(),
            final(self).colored() == old(self).colored(),
    {
        match &value.literal {
            Some(Literal::Number(n)) => {
                self.out.push(Piece::Number(*n));
                assert(self.printed() =~= old(self).printed() + show_literal(value@));
            },
            Some(Literal::String(s)) => {
                self.emit(s.clone());
            },
            Some(Literal::Boolean(b)) => {
                if *b {
                    self.emit(String::from_str("true"));
                } else {
                    self.emit(String::from_str("false"));
                }
            },
            _ => {
                self.emit(String::from_str("nil"));
            },
        }
    }

    /// Appends how a call prints: the callee and each argument after a
    /// space.
    fn visit_call(&mut self, expr: &Expr)
        requires
            expr is Call,
        ensures
            final(self).printed() == old(self).printed() + show_expr(expr@, old(self).level(), old(self).colored()),
            final(self).level() == old(self).level(),
            final(self).colored() == old(self).colored(),
        decreases expr, 0int,
    {
        let ghost before = self.printed();
        let ghost d = self.depth;
        let saved = self.depth;
        let ghost c = self.use_colors;
        let (open, close) = self.get_open_close();
        match expr {
            Expr::Call { callee, paren, arguments } => {
                assert(*expr == Expr::Call { callee: *callee, paren: *paren, arguments: *arguments });
                self.emit2(open.as_str(), "call ");
                self.descend();
                self.visit_expression(callee);
                self.visit_arguments(arguments);
                self.depth = saved;
                self.emit(close);
            },
            _ => {},
        }
        assert(self.printed() =~= before + show_expr(expr@, d, c));
    }

    /// Appends how arguments print, each after a space.
    fn visit_arguments(&mut self, arguments: &Vec<Expr>)
        ensures
            final(self).printed() == old(self).printed() + show_args(
                exprs_view(arguments@),
                old(self).level(),
                old(self).colored(),
            ),
            final(self).level() == old(self).level(),
            final(self).colored() == old(self).colored(),
        decreases arguments, 0int,
    {
        let ghost mid = self.printed();
        let ghost n = self.depth;
        let ghost c = self.use_colors;
        proof {
            lemma_exprs_view_index(arguments@);
        }
        let mut i: usize = 0;
        while i < arguments.len()
            invariant
                i <= arguments@.len(),
                self.depth == n,
                self.use_colors == c,
                exprs_view(arguments@).len() == arguments@.len(),
                forall|j: int| 0 <= j < arguments@.len() ==> #[trigger] exprs_view(arguments@)[j] == arguments@[j]@,
                self.printed() == mid + show_args(exprs_view(arguments@).subrange(0, i as int), n, c),
            decreases arguments@.len() - i,
        {
            let ghost pre = exprs_view(arguments@).subrange(0, i as int);
            self.emit(String::from_str(" "));
            self.visit_expression(&arguments[i]);
            i = i + 1;
            assert(exprs_view(arguments@).subrange(0, i as int).drop_last() =~= pre);
        }
        assert(exprs_view(arguments@).subrange(0, arguments@.len() as int) =~= exprs_view(arguments@));
    }

    /// Appends how statements print, each after a space.
    fn visit_statement_list(&mut self, statements: &Vec<Statement>)
        ensures
            final(self).printed() == old(self).printed() + show_stmts(
                statements_view(statements@),
                old(self).level(),
                old(self).colored(),
            ),
            final(self).level() == old(self).level(),
            final(self).colored() == old(self).colored(),
        decreases statements, 0int,
    {
        let ghost mid = self.printed();
        let ghost n = self.depth;
        let ghost c = self.use_colors;
        proof {
            lemma_statements_view_index(statements@);
        }
        let mut i: usize = 0;
        while i < statements.len()
            invariant
                i <= statements@.len(),
                self.depth == n,
                self.use_colors == c,
                statements_view(statements@).len() == statements@.len(),
                forall|j: int| 0 <= j < statements@.len() ==> #[trigger] statements_view(statements@)[j] == statements@[j]@,
                self.printed() == mid + show_stmts(statements_view(statements@).subrange(0, i as int), n, c),
            decreases statements@.len() - i,
        {
            let ghost pre = statements_view(statements@).subrange(0, i as int);
            self.emit(String::from_str(" "));
            self.visit_statement(&statements[i]);
            i = i + 1;
            assert(statements_view(statements@).subrange(0, i as int).drop_last() =~= pre);
        }
        assert(statements_view(statements@).subrange(0, statements@.len() as int) =~= statements_view(statements@));
    }

    /// Appends how a lambda prints: its parameters, then its body.
    fn visit_lambda(&mut self, expr: &Expr)
        requires
            expr is Lambda,
        ensures
            final(self).printed() == old(self).printed() + show_expr(expr@, old(self).level(), old(self).colored()),
            final(self).level() == old(self).level(),
            final(self).colored() == old(self).colored(),
        decreases expr, 0int,
    {
        let ghost before = self.printed();
        let ghost d = self.depth;
        let saved = self.depth;
        let ghost c = self.use_colors;
        let (open, close) = self.get_open_close();
        match expr {
            Expr::Lambda { params, body } => {
                let mut s = open;
                append_str(&mut s, "lambda (");
                let names = join_lexemes(params);
                append_str(&mut s, names.as_str());
                append_str(&mut s, ")");
                self.emit(s);
                self.descend();
                self.visit_statement_list(body);
                self.depth = saved;
                self.emit(close);
            },
            _ => {},
        }
        assert(self.printed() =~= before + show_expr(expr@, d, c));
    }
}


/// Lexemes joined by single spaces.
pub fn join_lexemes(tokens: &Vec<Token>) -> (r: String)
    ensures
        r@ == joined(tokens@.map_values(|t: Token| t@)),
{
    let ghost all = tokens@.map_values(|t: Token| t@);
    let mut s = String::new();
    let mut i: usize = 0;
    while i < tokens.len()
        invariant
            i <= tokens@.len(),
            all == tokens@.map_values(|t: Token| t@),
            s@ == joined(all.subrange(0, i as int)),
        decreases tokens@.len() - i,
    {
        let ghost pre = all.subrange(0, i as int);
        if i > 0 {
            append_str(&mut s, " ");
        }
        append_str(&mut s, tokens[i].lexeme.as_str());
        i = i + 1;
        assert(all.subrange(0, i as int).drop_last() =~= pre);
        assert(all.subrange(0, i as int).last() == tokens@[i - 1]@);
        if i == 1 {
            assert(pre =~= Seq::<TokenView>::empty());
            assert(s@ =~= joined(all.subrange(0, i as int)));
        }
    }
    assert(all.subrange(0, tokens@.len() as int) =~= all);
    s
}

impl AstPrinter {
    /// Appends how a statement prints at the current depth.
    #[verifier::spinoff_prover]
    #[verifier::rlimit(100)]
    pub fn visit_statement(&mut self, statement: &Statement)
        ensures
            final(self).printed() == old(self).printed() + show_stmt(statement@, old(self).level(), old(self).colored()),
            final(self).level() == old(self).level(),
            final(self).colored() == old(self).colored(),
        decreases statement, 1int,
    {
        let ghost before = self.printed();
        let ghost d = self.depth;
        let saved = self.depth;
        let ghost c = self.use_colors;
        let (open, close) = self.get_open_close();
        match statement {
            Statement::Expression { expression } => {
                self.emit2(open.as_str(), "expr ");
                self.descend();
                self.visit_expression(expression);
                self.depth = saved;
                self.emit(close);
                assert(self.printed() =~= before + show_stmt(statement@, d, c));
            },
            Statement::Print { expression } => {
                self.emit2(open.as_str(), "print ");
                self.descend();
                self.visit_expression(expression);
                self.depth = saved;
                self.emit(close);
                assert(self.printed() =~= before + show_stmt(statement@, d, c));
            },
            Statement::Var { name, initializer } => {
                match initializer {
                    Some(init) => {
                        assert(crate::ast::statement::opt_expr_view(*initializer) == Some(init@));
                        assert(statement@ == StatementView::Var { name: name@, initializer: Some(init@) });
                        let mut s = open;
                        append_str(&mut s, "var ");
                        append_str(&mut s, name.lexeme.as_str());
                        append_str(&mut s, " = ");
                        self.emit(s);
                        self.descend();
                        self.visit_expression(init);
                        self.depth = saved;
                        self.emit(close);
                    },
                    None => {
                        assert(crate::ast::statement::opt_expr_view(*initializer) == None::<ExprView>);
                        assert(statement@ == StatementView::Var { name: name@, initializer: None });
                        let mut s = open;
                        append_str(&mut s, "var ");
                        append_str(&mut s, name.lexeme.as_str());
                        append_str(&mut s, " = nil");
                        append_str(&mut s, close.as_str());
                        self.emit(s);
                    },
                }
                assert(self.printed() =~= before + show_stmt(statement@, d, c));
            },
            Statement::Block { statements } => {
                self.emit2(open.as_str(), "block");
                self.descend();
                self.visit_statement_list(statements);
                self.depth = saved;
                self.emit(close);
                assert(self.printed() =~= before + show_stmt(statement@, d, c));
            },
            Statement::If { .. } => {
                self.visit_if_statement(statement);
                assert(self.printed() =~= before + show_stmt(statement@, d, c));
            },
            Statement::While { condition, body } => {
                self.emit2(open.as_str(), "while ");
                self.descend();
                self.visit_expression(condition);
                self.emit(String::from_str(" "));
                self.visit_statement(body);
                self.depth = saved;
                self.emit(close);
                assert(self.printed() =~= before + show_stmt(statement@, d, c));
            },
            Statement::Function { .. } => {
                self.visit_function_statement(statement);
                assert(self.printed() =~= before + show_stmt(statement@, d, c));
            },
            Statement::Return { keyword, value } => {
                match value {
                    Some(v) => {
                        assert(crate::ast::statement::opt_expr_view(*value) == Some(v@));
                        assert(statement@ == StatementView::Return { keyword: keyword@, value: Some(v@) });
                        self.emit2(open.as_str(), "return ");
                        self.descend();
                        self.visit_expression(v);
                        self.depth = saved;
                        self.emit(close);
                    },
                    None => {
                        assert(crate::ast::statement::opt_expr_view(*value) == None::<ExprView>);
                        assert(statement@ == StatementView::Return { keyword: keyword@, value: None });
                        self.emit3(open.as_str(), "return", close.as_str());
                    },
                }
                assert(self.printed() =~= before + show_stmt(statement@, d, c));
            },
            Statement::Class { .. } => {
                self.visit_class_statement(statement);
                assert(self.printed() =~= before + show_stmt(statement@, d, c));
            },
        }
        assert(self.printed() =~= before + show_stmt(statement@, d, c));
    }

    /// Appends how an `if` prints: the condition, the then branch and the
    /// else branch if any.
    fn visit_if_statement(&mut self, statement: &Statement)
        requires
            statement is If,
        ensures
            final(self).printed() == old(self).printed() + show_stmt(statement@, old(self).level(), old(self).colored()),
            final(self).level() == old(self).level(),
            final(self).colored() == old(self).colored(),
        decreases statement, 0int,
    {
        let ghost before = self.printed();
        let ghost d = self.depth;
        let saved = self.depth;
        let ghost c = self.use_colors;
        let (open, close) = self.get_open_close();
        match statement {
            Statement::If { condition, then_branch, else_branch } => {
                self.emit2(open.as_str(), "if ");
                self.descend();
                self.visit_expression(condition);
                self.emit(String::from_str(" "));
                self.visit_statement(then_branch);
                match else_branch {
                    Some(else_statement) => {
                        self.emit(String::from_str(" "));
                        self.visit_statement(else_statement);
                    },
                    None => {},
                }
                self.depth = saved;
                self.emit(close);
            },
            _ => {},
        }
        assert(self.printed() =~= before + show_stmt(statement@, d, c));
    }

    /// Appends how a function declaration prints: its name, its parameters,
    /// then its body.
    fn visit_function_statement(&mut self, statement: &Statement)
        requires
            statement is Function,
        ensures
            final(self).printed() == old(self).printed() + show_stmt(statement@, old(self).level(), old(self).colored()),
            final(self).level() == old(self).level(),
            final(self).colored() == old(self).colored(),
        decreases statement, 0int,
    {
        let ghost before = self.printed();
        let ghost d = self.depth;
        let saved = self.depth;
        let ghost c = self.use_colors;
        match statement {
            Statement::Function { name, params, body, .. } => {
                let names = join_lexemes(params);
                let (open, close) = self.get_open_close();
                let mut s = open;
                append_str(&mut s, "fun ");
                append_str(&mut s, name.lexeme.as_str());
                append_str(&mut s, " (");
                append_str(&mut s, names.as_str());
                append_str(&mut s, ")");
                self.emit(s);
                self.descend();
                self.visit_statement_list(body);
                self.depth = saved;
                self.emit(close);
            },
            _ => {},
        }
        assert(self.printed() =~= before + show_stmt(statement@, d, c));
    }

    /// Appends how a class declaration prints: its name, its superclass if
    /// any, then its methods, static fields and static methods.
    #[verifier::rlimit(60)]
    fn visit_class_statement(&mut self, statement: &Statement)
        requires
            statement is Class,
        ensures
            final(self).printed() == old(self).printed() + show_stmt(statement@, old(self).level(), old(self).colored()),
            final(self).level() == old(self).level(),
            final(self).colored() == old(self).colored(),
        decreases statement, 0int,
    {
        let ghost before = self.printed();
        let ghost d = self.depth;
        let saved = self.depth;
        let ghost c = self.use_colors;
        let (open, close) = self.get_open_close();
        match statement {
            Statement::Class { name, superclass, methods, static_fields, static_methods } => {
                let mut s = open;
                append_str(&mut s, "class ");
                append_str(&mut s, name.lexeme.as_str());
                append_str(&mut s, " ");
                match superclass {
                    Some(sup) => {
                        assert(crate::ast::statement::opt_expr_view(*superclass) == Some(sup@));
                        assert(statement@ == StatementView::Class {
                            name: name@,
                            superclass: Some(sup@),
                            methods: statements_view(methods@),
                            static_fields: statements_view(static_fields@),
                            static_methods: statements_view(static_methods@),
                        });
                        append_str(&mut s, "< ");
                        self.emit(s);
                        self.descend();
                        self.visit_expression(sup);
                    },
                    None => {
                        assert(crate::ast::statement::opt_expr_view(*superclass) == None::<ExprView>);
                        assert(statement@ == StatementView::Class {
                            name: name@,
                            superclass: None,
                            methods: statements_view(methods@),
                            static_fields: statements_view(static_fields@),
                            static_methods: statements_view(static_methods@),
                        });
                        self.emit(s);
                        self.descend();
                    },
                }
                self.visit_statement_list(methods);
                self.visit_statement_list(static_fields);
                self.visit_statement_list(static_methods);
                self.depth = saved;
                self.emit(close);
            },
            _ => {},
        }
        assert(self.printed() =~= before + show_stmt(statement@, d, c));
    }
}

/// How a token is listed: its type in upper snake case, its lexeme, and
/// its literal (`null` for none, `nil` and booleans).
pub open spec fn token_listing(t: TokenView) -> Seq<PieceView> {
    txt(shouty_snake_case(token_type_name(t.token_type)) + " "@ + t.lexeme + " "@) + match t.literal {
        Some(LiteralView::Number(n)) => seq![PieceView::Number(n)],
        Some(LiteralView::String(s)) => txt(s),
        _ => txt("null"@),
    }
}

/// The listing of a token.
pub fn token_pieces(token: &Token) -> (r: Vec<Piece>)
    ensures
        pieces_view(r@) == token_listing(token@),
{
    let mut head = token.token_type.to_string();
    append_str(&mut head, " ");
    append_str(&mut head, token.lexeme.as_str());
    append_str(&mut head, " ");
    let mut r: Vec<Piece> = Vec::new();
    r.push(Piece::Text(head));
    match &token.literal {
        Some(Literal::Number(n)) => r.push(Piece::Number(*n)),
        Some(Literal::String(s)) => r.push(Piece::Text(s.clone())),
        _ => r.push(Piece::Text(String::from_str("null"))),
    }
    assert(pieces_view(r@) =~= token_listing(token@));
    r
}

} // verus!
