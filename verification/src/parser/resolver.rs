//! The resolver: a pass over the syntax tree that gives every local
//! variable use the distance to the scope declaring it.
use vstd::prelude::*;
use crate::lexer::token::{Token, TokenView};
use crate::ast::expr::{Depth, Expr, ExprView, exprs_view, lemma_exprs_view_index, lemma_exprs_view_push};
use crate::ast::statement::{
    Statement, StatementView, lemma_statements_view_index, lemma_statements_view_push, opt_expr_view, statements_view,
};
use crate::parser::error::{ParseError, ParseErrorView};
use crate::parser::resolution::{
    bind_params, declare, define, distance_to, error_at_name, res_expr, res_exprs, res_function, res_method,
    res_methods, res_stmt, res_stmts, resolved_depth, Resolution,
};
use crate::runtime::environment::{bindings_of, distinct_names, lemma_bindings_absent, lemma_bindings_at, lemma_bindings_update};
use crate::text::append_str;

verus! {

/// A scope's table: each declared name and whether its declaration is
/// complete.
#[derive(Debug)]
pub struct Lookup {
    names: Vec<String>,
    defined: Vec<bool>,
}

impl View for Lookup {
    type V = Map<Seq<char>, bool>;

    closed spec fn view(&self) -> Map<Seq<char>, bool> {
        bindings_of(self.names@.map_values(|s: String| s@), self.defined@)
    }
}

impl Lookup {
    /// One flag per name, no name twice.
    pub closed spec fn wf(&self) -> bool {
        &&& self.names@.len() == self.defined@.len()
        &&& distinct_names(self.names@.map_values(|s: String| s@))
    }

    /// An empty table.
    pub fn new() -> (r: Self)
        ensures
            r.wf(),
            r@ == Map::<Seq<char>, bool>::empty(),
    {
        let r = Lookup { names: Vec::new(), defined: Vec::new() };
        assert(r@ =~= Map::<Seq<char>, bool>::empty());
        r
    }

    fn position_of(&self, name: &String) -> (r: Option<usize>)
        requires
            self.wf(),
        ensures
            match r {
                Some(i) => i < self.names@.len() && self.names@[i as int]@ == name@,
                None => forall|i: int| 0 <= i < self.names@.len() ==> self.names@[i]@ != name@,
            },
    {
        let mut i: usize = 0;
        while i < self.names.len()
            invariant
                self.wf(),
                i <= self.names@.len(),
                forall|j: int| 0 <= j < i ==> self.names@[j]@ != name@,
            decreases self.names@.len() - i,
        {
            if self.names[i] == *name {
                return Some(i);
            }
            i = i + 1;
        }
        None
    }

    /// Whether the name is declared, and if so whether it is defined.
    pub fn get(&self, name: &String) -> (r: Option<bool>)
        requires
            self.wf(),
        ensures
            match r {
                Some(b) => self@.dom().contains(name@) && self@[name@] == b,
                None => !self@.dom().contains(name@),
            },
    {
        let ghost names = self.names@.map_values(|s: String| s@);
        match self.position_of(name) {
            Some(i) => {
                proof {
                    lemma_bindings_at(names, self.defined@, i as int);
                }
                Some(self.defined[i])
            },
            None => {
                proof {
                    lemma_bindings_absent(names, self.defined@, name@);
                }
                None
            },
        }
    }

    /// Records the name with a flag, replacing an earlier record of it.
    pub fn insert(&mut self, name: String, flag: bool)
        requires
            old(self).wf(),
        ensures
            final(self).wf(),
            final(self)@ == old(self)@.insert(name@, flag),
    {
        let ghost names = self.names@.map_values(|s: String| s@);
        let ghost nv = name@;
        match self.position_of(&name) {
            Some(i) => {
                proof {
                    lemma_bindings_update(names, self.defined@, i as int, flag);
                }
                self.defined.set(i, flag);
                assert(self.names@.map_values(|s: String| s@) =~= names);
            },
            None => {
                self.names.push(name);
                self.defined.push(flag);
                assert(self.names@.map_values(|s: String| s@) =~= names.push(nv));
                assert(self.names@.map_values(|s: String| s@).drop_last() =~= names);
                assert(self.defined@.drop_last() =~= old(self).defined@);
            },
        }
    }

    /// A copy of the table.
    pub fn copy(&self) -> (r: Self)
        requires
            self.wf(),
        ensures
            r.wf(),
            r@ == self@,
    {
        let mut names: Vec<String> = Vec::new();
        let mut defined: Vec<bool> = Vec::new();
        let mut i: usize = 0;
        while i < self.names.len()
            invariant
                self.wf(),
                i <= self.names@.len(),
                names@ == self.names@.subrange(0, i as int),
                defined@ == self.defined@.subrange(0, i as int),
            decreases self.names@.len() - i,
        {
            names.push(self.names[i].clone());
            defined.push(self.defined[i]);
            i = i + 1;
            assert(names@ =~= self.names@.subrange(0, i as int));
            assert(defined@ =~= self.defined@.subrange(0, i as int));
        }
        assert(names@ =~= self.names@);
        assert(defined@ =~= self.defined@);
        Lookup { names, defined }
    }
}

/// Whether resolution is inside a function.
#[derive(Debug, Clone, Copy, PartialEq, Eq, Structural)]
enum FunctionType {
    TopLevel,
    Function,
}

/// Whether resolution is inside a class.
#[derive(Debug, Clone, Copy, PartialEq, Eq, Structural)]
enum ClassType {
    NoClass,
    Class,
}

/// The resolver: the stack of local scopes and where resolution is.
pub struct Resolver {
    scopes: Vec<Lookup>,
    current_function: FunctionType,
    current_class: ClassType,
}

/// The tables of scopes.
pub open spec fn lookups_view(ls: Seq<Lookup>) -> Seq<Map<Seq<char>, bool>> {
    ls.map_values(|l: Lookup| l@)
}

impl Resolver {
    /// Every scope's table is well formed.
    pub closed spec fn wf(&self) -> bool {
        forall|i: int| 0 <= i < self.scopes@.len() ==> (#[trigger] self.scopes@[i]).wf()
    }

    /// The resolver's state.
    pub closed spec fn state(&self) -> Resolution {
        Resolution {
            scopes: lookups_view(self.scopes@),
            in_function: self.current_function == FunctionType::Function,
            in_class: self.current_class == ClassType::Class,
        }
    }

    /// A resolver at the top level: no local scope, outside any function
    /// and class.
    pub fn new() -> (r: Self)
        ensures
            r.wf(),
            r.state() == (Resolution { scopes: Seq::empty(), in_function: false, in_class: false }),
    {
        let r = Resolver { scopes: Vec::new(), current_function: FunctionType::TopLevel, current_class: ClassType::NoClass };
        assert(lookups_view(r.scopes@) =~= Seq::empty());
        r
    }

    /// The error reported at a name.
    fn error(token: &Token, message: &str) -> (e: ParseError)
        ensures
            e@ == error_at_name(token@, message@),
    {
        let mut m = String::from_str("At '");
        append_str(&mut m, token.lexeme.as_str());
        append_str(&mut m, "': ");
        append_str(&mut m, message);
        ParseError::new(token.line, m)
    }

    /// Opens a new, empty innermost scope.
    pub fn begin_scope(&mut self) -> (r: Result<(), ParseError>)
        requires
            old(self).wf(),
        ensures
            r is Ok,
            final(self).wf(),
            final(self).state() == (Resolution {
                scopes: old(self).state().scopes.push(Map::empty()),
                ..old(self).state()
            }),
    {
        self.scopes.push(Lookup::new());
        assert(lookups_view(self.scopes@) =~= lookups_view(old(self).scopes@).push(Map::empty()));
        assert forall|i: int| 0 <= i < self.scopes@.len() implies (#[trigger] self.scopes@[i]).wf() by {
            if i < old(self).scopes@.len() {
                assert(self.scopes@[i] == old(self).scopes@[i]);
            }
        }
        Ok(())
    }

    /// Closes the innermost scope (nothing happens without one).
    pub fn end_scope(&mut self) -> (r: Result<(), ParseError>)
        requires
            old(self).wf(),
        ensures
            r is Ok,
            final(self).wf(),
            final(self).state() == (Resolution {
                scopes: if old(self).state().scopes.len() > 0 {
                    old(self).state().scopes.drop_last()
                } else {
                    old(self).state().scopes
                },
                ..old(self).state()
            }),
    {
        let _ = self.scopes.pop();
        assert(lookups_view(self.scopes@) =~= if old(self).scopes@.len() > 0 {
            lookups_view(old(self).scopes@).drop_last()
        } else {
            lookups_view(old(self).scopes@)
        });
        Ok(())
    }

    /// The innermost scope's table, or an error when there is no local
    /// scope.
    pub fn get_top(&self) -> (r: Result<&Lookup, ParseError>)
        requires
            self.wf(),
        ensures
            self.state().scopes.len() > 0 ==> r is Ok && r->Ok_0@ == self.state().scopes.last() && r->Ok_0.wf(),
            self.state().scopes.len() == 0 ==> r is Err && r->Err_0@ == (ParseErrorView {
                line: 0,
                message: "Failed to read scope"@,
            }),
    {
        if self.scopes.len() > 0 {
            Ok(&self.scopes[self.scopes.len() - 1])
        } else {
            Err(ParseError::new(0, String::from_str("Failed to read scope")))
        }
    }

    /// Whether a name is declared in a scope's table.
    pub fn is_declared(&self, name: &String, scope: &Lookup) -> (r: Result<bool, ParseError>)
        requires
            scope.wf(),
        ensures
            r is Ok && r->Ok_0 == scope@.dom().contains(name@),
    {
        match scope.get(name) {
            Some(_) => Ok(true),
            None => Ok(false),
        }
    }

    /// Whether a name is declared in a scope's table, and if so whether it
    /// is defined.
    pub fn get(&self, name: &Token, scope: &Lookup) -> (r: Result<Option<bool>, ParseError>)
        requires
            scope.wf(),
        ensures
            r is Ok,
            match r->Ok_0 {
                Some(b) => scope@.dom().contains(name.lexeme@) && scope@[name.lexeme@] == b,
                None => !scope@.dom().contains(name.lexeme@),
            },
    {
        Ok(scope.get(&name.lexeme))
    }

    /// Records a name in the innermost scope.
    fn mark(&mut self, name: String, flag: bool)
        requires
            old(self).wf(),
            old(self).scopes@.len() > 0,
        ensures
            final(self).wf(),
            final(self).state() == (Resolution {
                scopes: old(self).state().scopes.update(
                    old(self).state().scopes.len() - 1,
                    old(self).state().scopes.last().insert(name@, flag),
                ),
                ..old(self).state()
            }),
    {
        let last = self.scopes.len() - 1;
        let mut top = Lookup::new();
        std::mem::swap(&mut top, &mut self.scopes[last]);
        top.insert(name, flag);
        self.scopes.set(last, top);
        assert(lookups_view(self.scopes@) =~= lookups_view(old(self).scopes@).update(
            last as int,
            lookups_view(old(self).scopes@)[last as int].insert(name@, flag),
        ));
        assert forall|i: int| 0 <= i < self.scopes@.len() implies (#[trigger] self.scopes@[i]).wf() by {
            if i != last {
                assert(self.scopes@[i] == old(self).scopes@[i]);
            }
        }
    }

    /// Declares a name in the innermost scope, not yet defined; an error if
    /// that scope already declares it.
    pub fn declare(&mut self, name: &Token) -> (r: Result<(), ParseError>)
        requires
            old(self).wf(),
        ensures
            final(self).wf(),
            match declare(old(self).state(), name@) {
                Ok(st) => r is Ok && final(self).state() == st,
                Err(e) => r is Err && r->Err_0@ == e && final(self).state() == old(self).state(),
            },
    {
        if self.scopes.len() == 0 {
            return Ok(());
        }
        let declared = match self.get_top() {
            Ok(top) => match self.is_declared(&name.lexeme, top) {
                Ok(b) => b,
                Err(e) => {
                    return Err(e);
                },
            },
            Err(e) => {
                return Err(e);
            },
        };
        if declared {
            return Err(Self::error(name, "Variable with this name already declared in this scope"));
        }
        self.mark(name.lexeme.clone(), false);
        Ok(())
    }

    /// Marks a name defined in the innermost scope.
    pub fn define(&mut self, name: &Token) -> (r: Result<(), ParseError>)
        requires
            old(self).wf(),
        ensures
            r is Ok,
            final(self).wf(),
            final(self).state() == define(old(self).state(), name.lexeme@),
    {
        if self.scopes.len() == 0 {
            return Ok(());
        }
        self.mark(name.lexeme.clone(), true);
        Ok(())
    }

    /// The depth a use of `name` gets: the distance to the innermost scope
    /// declaring it, or the given depth if none does.
    pub fn resolve_local(&self, name: &String, depth: Depth) -> (r: Depth)
        requires
            self.wf(),
        ensures
            r == resolved_depth(self.state().scopes, name@, depth),
    {
        let ghost all = lookups_view(self.scopes@);
        assert(all.subrange(0, self.scopes@.len() as int) =~= all);
        let mut i = self.scopes.len();
        while i > 0
            invariant
                self.wf(),
                i <= self.scopes@.len(),
                all == lookups_view(self.scopes@),
                distance_to(all, name@) == match distance_to(all.subrange(0, i as int), name@) {
                    Some(d) => Some(d + (self.scopes@.len() - i) as nat),
                    None => None::<nat>,
                },
            decreases i,
        {
            let ghost pre = all.subrange(0, i as int);
            assert(pre.drop_last() =~= all.subrange(0, i - 1));
            assert(pre.last() == self.scopes@[i - 1]@);
            match self.scopes[i - 1].get(name) {
                Some(_) => {
                    return Depth::Resolved(self.scopes.len() - i);
                },
                None => {},
            }
            i = i - 1;
        }
        assert(all.subrange(0, 0) =~= Seq::<Map<Seq<char>, bool>>::empty());
        depth
    }

    /// A copy of the scope tables.
    fn saved_scopes(&self) -> (r: Vec<Lookup>)
        requires
            self.wf(),
        ensures
            lookups_view(r@) == self.state().scopes,
            forall|i: int| 0 <= i < r@.len() ==> (#[trigger] r@[i]).wf(),
    {
        let mut r: Vec<Lookup> = Vec::new();
        let mut i: usize = 0;
        while i < self.scopes.len()
            invariant
                self.wf(),
                i <= self.scopes@.len(),
                r@.len() == i,
                forall|j: int| 0 <= j < i ==> (#[trigger] r@[j]).wf() && r@[j]@ == self.scopes@[j]@,
            decreases self.scopes@.len() - i,
        {
            r.push(self.scopes[i].copy());
            i = i + 1;
        }
        assert(lookups_view(r@) =~= lookups_view(self.scopes@));
        r
    }
}


impl Resolver {
    /// Resolves the statements of a program (or of any list) in order, with
    /// the state flowing from each to the next; on success the statements
    /// are replaced by their resolved forms, and at the first error they are
    /// dropped and the error is returned.
    pub fn resolve_statements(&mut self, statements: &mut Vec<Statement>) -> (r: Result<(), ParseError>)
        requires
            old(self).wf(),
        ensures
            final(self).wf(),
            match res_stmts(statements_view(old(statements)@), 0, Seq::empty(), old(self).state()) {
                Ok((v, st)) => r is Ok && statements_view(final(statements)@) == v && final(self).state() == st,
                Err(e) => r is Err && r->Err_0@ == e && final(statements)@.len() == 0,
            },
    {
        let mut taken: Vec<Statement> = Vec::new();
        std::mem::swap(&mut taken, statements);
        match self.visit_statements(taken) {
            Ok(resolved) => {
                *statements = resolved;
                Ok(())
            },
            Err(e) => Err(e),
        }
    }

    /// Resolves statements in order.
    #[verifier::loop_isolation(false)]
    fn visit_statements(&mut self, ss: Vec<Statement>) -> (r: Result<Vec<Statement>, ParseError>)
        requires
            old(self).wf(),
        ensures
            final(self).wf(),
            match res_stmts(statements_view(ss@), 0, Seq::empty(), old(self).state()) {
                Ok((v, st)) => r is Ok && statements_view(r->Ok_0@) == v && final(self).state() == st,
                Err(e) => r is Err && r->Err_0@ == e,
            },
        decreases ss, 2int,
    {
        let ghost orig = ss@;
        let ghost sv = ss;
        let n = ss.len();
        let ghost all = statements_view(ss@);
        proof {
            lemma_statements_view_index(ss@);
        }
        let mut rest = ss;
        let mut out: Vec<Statement> = Vec::new();
        assert(statements_view(out@) =~= Seq::empty());
        assert(orig.subrange(0, orig.len() as int) =~= orig);
        let mut i: usize = 0;
        while rest.len() > 0
            invariant
                self.wf(),
                i <= orig.len(),
                orig.len() == n,
                sv@ == orig,
                rest@ == orig.subrange(i as int, orig.len() as int),
                all == statements_view(orig),
                all.len() == orig.len(),
                forall|j: int| 0 <= j < orig.len() ==> #[trigger] all[j] == orig[j]@,
                res_stmts(all, 0, Seq::empty(), old(self).state()) == res_stmts(
                    all,
                    i as int,
                    statements_view(out@),
                    self.state(),
                ),
            decreases rest@.len(),
        {
            assert(rest@.len() > 0);
            assert(i < orig.len());
            let x = rest.remove(0);
            assert(x == orig[i as int]);
            assert(all[i as int] == x@);
            proof {
                assert(decreases_to!(sv => sv@));
                assert(decreases_to!(sv@ => sv@[i as int]));
                assert(decreases_to!(sv => x));
            }
            match self.visit_statement(x) {
                Ok(y) => {
                    proof {
                        lemma_statements_view_push(out@, y);
                    }
                    out.push(y);
                },
                Err(e) => {
                    return Err(e);
                },
            }
            i = i + 1;
            assert(rest@ =~= orig.subrange(i as int, orig.len() as int));
        }
        Ok(out)
    }

    /// Resolves expressions in order.
    #[verifier::loop_isolation(false)]
    fn visit_expressions(&mut self, es: Vec<Expr>) -> (r: Result<Vec<Expr>, ParseError>)
        requires
            old(self).wf(),
        ensures
            final(self).wf(),
            match res_exprs(exprs_view(es@), 0, Seq::empty(), old(self).state()) {
                Ok(v) => r is Ok && exprs_view(r->Ok_0@) == v && final(self).state() == old(self).state(),
                Err(e) => r is Err && r->Err_0@ == e,
            },
        decreases es, 1int,
    {
        let ghost orig = es@;
        let ghost sv = es;
        let n = es.len();
        let ghost all = exprs_view(es@);
        proof {
            lemma_exprs_view_index(es@);
        }
        let mut rest = es;
        let mut out: Vec<Expr> = Vec::new();
        assert(exprs_view(out@) =~= Seq::empty());
        assert(orig.subrange(0, orig.len() as int) =~= orig);
        let mut i: usize = 0;
        while rest.len() > 0
            invariant
                self.wf(),
                self.state() == old(self).state(),
                i <= orig.len(),
                orig.len() == n,
                sv@ == orig,
                rest@ == orig.subrange(i as int, orig.len() as int),
                all == exprs_view(orig),
                all.len() == orig.len(),
                forall|j: int| 0 <= j < orig.len() ==> #[trigger] all[j] == orig[j]@,
                res_exprs(all, 0, Seq::empty(), old(self).state()) == res_exprs(
                    all,
                    i as int,
                    exprs_view(out@),
                    old(self).state(),
                ),
            decreases rest@.len(),
        {
            assert(rest@.len() > 0);
            assert(i < orig.len());
            let x = rest.remove(0);
            assert(x == orig[i as int]);
            assert(all[i as int] == x@);
            proof {
                assert(decreases_to!(sv => sv@));
                assert(decreases_to!(sv@ => sv@[i as int]));
                assert(decreases_to!(sv => x));
            }
            match self.visit_expression(x) {
                Ok(y) => {
                    proof {
                        lemma_exprs_view_push(out@, y);
                    }
                    out.push(y);
                },
                Err(e) => {
                    return Err(e);
                },
            }
            i = i + 1;
            assert(rest@ =~= orig.subrange(i as int, orig.len() as int));
        }
        Ok(out)
    }

    /// Resolves a function's parameters and body: a new scope for the
    /// parameters, inside a function; the state is restored afterwards.
    #[verifier::loop_isolation(false)]
    fn resolve_function(&mut self, params: &Vec<Token>, body: Vec<Statement>) -> (r: Result<Vec<Statement>, ParseError>)
        requires
            old(self).wf(),
        ensures
            final(self).wf(),
            match res_function(params@.map_values(|t: Token| t@), statements_view(body@), old(self).state()) {
                Ok(v) => r is Ok && statements_view(r->Ok_0@) == v && final(self).state() == old(self).state(),
                Err(e) => r is Err && r->Err_0@ == e,
            },
        decreases body, 3int,
    {
        let ghost pv = params@.map_values(|t: Token| t@);
        let saved = self.saved_scopes();
        let enclosing = self.current_function;
        let enclosing_class = self.current_class;
        self.current_function = FunctionType::Function;
        let _ = self.begin_scope();
        let ghost inner = self.state();
        let mut i: usize = 0;
        while i < params.len()
            invariant
                self.wf(),
                i <= params@.len(),
                pv == params@.map_values(|t: Token| t@),
                bind_params(pv, 0, inner) == bind_params(pv, i as int, self.state()),
            decreases params@.len() - i,
        {
            assert(pv[i as int] == params@[i as int]@);
            match self.declare(&params[i]) {
                Ok(()) => {},
                Err(e) => {
                    return Err(e);
                },
            }
            let _ = self.define(&params[i]);
            i = i + 1;
        }
        let resolved = match self.visit_statements(body) {
            Ok(b) => b,
            Err(e) => {
                return Err(e);
            },
        };
        self.scopes = saved;
        self.current_function = enclosing;
        self.current_class = enclosing_class;
        Ok(resolved)
    }

    /// Resolves a variable use: an error if it reads a local variable in its
    /// own initializer, else its depth.
    fn visit_variable(&mut self, name: Token, depth: Depth) -> (r: Result<Expr, ParseError>)
        requires
            old(self).wf(),
        ensures
            *final(self) == *old(self),
            match res_expr(ExprView::Variable { name: name@, depth }, old(self).state()) {
                Ok(v) => r is Ok && r->Ok_0@ == v,
                Err(e) => r is Err && r->Err_0@ == e,
            },
    {
        if self.scopes.len() > 0 {
            let flag = match self.get_top() {
                Ok(top) => match self.get(&name, top) {
                    Ok(f) => f,
                    Err(e) => {
                        return Err(e);
                    },
                },
                Err(e) => {
                    return Err(e);
                },
            };
            if flag == Some(false) {
                return Err(Self::error(&name, "Can't read local variable in its own initializer"));
            }
        }
        let d = self.resolve_local(&name.lexeme, depth);
        Ok(Expr::Variable { name, depth: d })
    }

    /// Resolves an expression; the state is the same afterwards.
    pub fn visit_expression(&mut self, expr: Expr) -> (r: Result<Expr, ParseError>)
        requires
            old(self).wf(),
        ensures
            final(self).wf(),
            match res_expr(expr@, old(self).state()) {
                Ok(v) => r is Ok && r->Ok_0@ == v && final(self).state() == old(self).state(),
                Err(e) => r is Err && r->Err_0@ == e,
            },
        decreases expr, 2int,
    {
        match expr {
            Expr::Variable { name, depth } => self.visit_variable(name, depth),
            Expr::Assign { name, value, depth } => {
                let v = match self.visit_expression(*value) {
                    Ok(v) => v,
                    Err(e) => {
                        return Err(e);
                    },
                };
                let d = self.resolve_local(&name.lexeme, depth);
                Ok(Expr::Assign { name, value: Box::new(v), depth: d })
            },
            Expr::This { keyword, depth } => {
                if self.current_class == ClassType::NoClass {
                    return Err(Self::error(&keyword, "Can't use 'this' outside of a class."));
                }
                let this = String::from_str("this");
                let d = self.resolve_local(&this, depth);
                Ok(Expr::This { keyword, depth: d })
            },
            Expr::Literal { value } => Ok(Expr::Literal { value }),
            Expr::Grouping { expression } => {
                let x = match self.visit_expression(*expression) {
                    Ok(v) => v,
                    Err(e) => {
                        return Err(e);
                    },
                };
                Ok(Expr::Grouping { expression: Box::new(x) })
            },
            Expr::Unary { operator, right } => {
                let x = match self.visit_expression(*right) {
                    Ok(v) => v,
                    Err(e) => {
                        return Err(e);
                    },
                };
                Ok(Expr::Unary { operator, right: Box::new(x) })
            },
            Expr::Binary { left, operator, right } => {
                let l = match self.visit_expression(*left) {
                    Ok(v) => v,
                    Err(e) => {
                        return Err(e);
                    },
                };
                let r = match self.visit_expression(*right) {
                    Ok(v) => v,
                    Err(e) => {
                        return Err(e);
                    },
                };
                Ok(Expr::Binary { left: Box::new(l), operator, right: Box::new(r) })
            },
            Expr::LogicOr { left, right } => {
                let l = match self.visit_expression(*left) {
                    Ok(v) => v,
                    Err(e) => {
                        return Err(e);
                    },
                };
                let r = match self.visit_expression(*right) {
                    Ok(v) => v,
                    Err(e) => {
                        return Err(e);
                    },
                };
                Ok(Expr::LogicOr { left: Box::new(l), right: Box::new(r) })
            },
            Expr::LogicAnd { left, right } => {
                let l = match self.visit_expression(*left) {
                    Ok(v) => v,
                    Err(e) => {
                        return Err(e);
                    },
                };
                let r = match self.visit_expression(*right) {
                    Ok(v) => v,
                    Err(e) => {
                        return Err(e);
                    },
                };
                Ok(Expr::LogicAnd { left: Box::new(l), right: Box::new(r) })
            },
            Expr::Get { object, name } => {
                let o = match self.visit_expression(*object) {
                    Ok(v) => v,
                    Err(e) => {
                        return Err(e);
                    },
                };
                Ok(Expr::Get { object: Box::new(o), name })
            },
            Expr::SetProperty { object, name, value } => {
                let v = match self.visit_expression(*value) {
                    Ok(v) => v,
                    Err(e) => {
                        return Err(e);
                    },
                };
                let o = match self.visit_expression(*object) {
                    Ok(v) => v,
                    Err(e) => {
                        return Err(e);
                    },
                };
                Ok(Expr::SetProperty { object: Box::new(o), name, value: Box::new(v) })
            },
            Expr::Call { callee, paren, arguments } => {
                let c = match self.visit_expression(*callee) {
                    Ok(v) => v,
                    Err(e) => {
                        return Err(e);
                    },
                };
                let args = match self.visit_expressions(arguments) {
                    Ok(v) => v,
                    Err(e) => {
                        return Err(e);
                    },
                };
                Ok(Expr::Call { callee: Box::new(c), paren, arguments: args })
            },
            Expr::Lambda { params, body } => {
                let b = match self.resolve_function(&params, body) {
                    Ok(v) => v,
                    Err(e) => {
                        return Err(e);
                    },
                };
                Ok(Expr::Lambda { params, body: b })
            },
        }
    }
}


impl Resolver {
    /// Resolves a statement; the state afterwards is the one the statement
    /// leaves (a declaration adds to the innermost scope).
    #[verifier::spinoff_prover]
    #[verifier::rlimit(100)]
    pub fn visit_statement(&mut self, statement: Statement) -> (r: Result<Statement, ParseError>)
        requires
            old(self).wf(),
        ensures
            final(self).wf(),
            match res_stmt(statement@, old(self).state()) {
                Ok((v, st)) => r is Ok && r->Ok_0@ == v && final(self).state() == st,
                Err(e) => r is Err && r->Err_0@ == e,
            },
        decreases statement, 3int,
    {
        match statement {
            Statement::Expression { expression } => {
                let x = match self.visit_expression(expression) {
                    Ok(v) => v,
                    Err(e) => {
                        return Err(e);
                    },
                };
                Ok(Statement::Expression { expression: x })
            },
            Statement::Print { expression } => {
                let x = match self.visit_expression(expression) {
                    Ok(v) => v,
                    Err(e) => {
                        return Err(e);
                    },
                };
                Ok(Statement::Print { expression: x })
            },
            Statement::Var { name, initializer } => {
                assert(statement@ == StatementView::Var { name: name@, initializer: opt_expr_view(initializer) });
                self.visit_var_statement(name, initializer)
            },
            Statement::If { condition, then_branch, else_branch } => {
                let c = match self.visit_expression(condition) {
                    Ok(v) => v,
                    Err(e) => {
                        return Err(e);
                    },
                };
                let t = match self.visit_statement(*then_branch) {
                    Ok(v) => v,
                    Err(e) => {
                        return Err(e);
                    },
                };
                match else_branch {
                    Some(b) => {
                        let e = match self.visit_statement(*b) {
                            Ok(v) => v,
                            Err(e) => {
                                return Err(e);
                            },
                        };
                        Ok(Statement::If { condition: c, then_branch: Box::new(t), else_branch: Some(Box::new(e)) })
                    },
                    None => Ok(Statement::If { condition: c, then_branch: Box::new(t), else_branch: None }),
                }
            },
            Statement::While { condition, body } => {
                let c = match self.visit_expression(condition) {
                    Ok(v) => v,
                    Err(e) => {
                        return Err(e);
                    },
                };
                let b = match self.visit_statement(*body) {
                    Ok(v) => v,
                    Err(e) => {
                        return Err(e);
                    },
                };
                Ok(Statement::While { condition: c, body: Box::new(b) })
            },
            Statement::Block { statements } => {
                let saved = self.saved_scopes();
                let enclosing = self.current_function;
                let enclosing_class = self.current_class;
                let _ = self.begin_scope();
                let ss = match self.visit_statements(statements) {
                    Ok(v) => v,
                    Err(e) => {
                        return Err(e);
                    },
                };
                self.scopes = saved;
                self.current_function = enclosing;
                self.current_class = enclosing_class;
                Ok(Statement::Block { statements: ss })
            },
            Statement::Function { name, params, body, is_getter } => {
                match self.declare(&name) {
                    Ok(()) => {},
                    Err(e) => {
                        return Err(e);
                    },
                }
                let _ = self.define(&name);
                let b = match self.resolve_function(&params, body) {
                    Ok(v) => v,
                    Err(e) => {
                        return Err(e);
                    },
                };
                Ok(Statement::Function { name, params, body: b, is_getter })
            },
            Statement::Return { keyword, value } => {
                assert(opt_expr_view(value) == match value {
                    Some(x) => Some(x@),
                    None => None::<ExprView>,
                });
                assert(statement@ == StatementView::Return { keyword: keyword@, value: opt_expr_view(value) });
                if self.current_function == FunctionType::TopLevel {
                    return Err(Self::error(&keyword, "Can't return from top-level code"));
                }
                match value {
                    Some(v) => {
                        let x = match self.visit_expression(v) {
                            Ok(v) => v,
                            Err(e) => {
                                return Err(e);
                            },
                        };
                        let ghost kv = keyword@;
                        let result = Statement::Return { keyword, value: Some(x) };
                        assert(opt_expr_view(Some(x)) == Some(x@));
                        assert(result@ == StatementView::Return { keyword: kv, value: Some(x@) });
                        Ok(result)
                    },
                    None => {
                        let ghost kv = keyword@;
                        let result = Statement::Return { keyword, value: None };
                        assert(opt_expr_view(None) == None::<ExprView>);
                        assert(result@ == StatementView::Return { keyword: kv, value: None });
                        Ok(result)
                    },
                }
            },
            Statement::Class { name, superclass, methods, static_fields, static_methods } => {
                assert(statement@ == StatementView::Class {
                    name: name@,
                    superclass: opt_expr_view(superclass),
                    methods: statements_view(methods@),
                    static_fields: statements_view(static_fields@),
                    static_methods: statements_view(static_methods@),
                });
                self.visit_class_statement(name, superclass, methods, static_fields, static_methods)
            },
        }
    }

    /// Resolves a variable declaration: declared, then its initializer,
    /// then defined.
    #[verifier::spinoff_prover]
    #[verifier::rlimit(100)]
    fn visit_var_statement(&mut self, name: Token, initializer: Option<Expr>) -> (r: Result<Statement, ParseError>)
        requires
            old(self).wf(),
        ensures
            final(self).wf(),
            match res_stmt(StatementView::Var { name: name@, initializer: opt_expr_view(initializer) }, old(self).state()) {
                Ok((v, st)) => r is Ok && r->Ok_0@ == v && final(self).state() == st,
                Err(e) => r is Err && r->Err_0@ == e,
            },
        decreases initializer, 3int,
    {
        assert(opt_expr_view(initializer) == match initializer {
            Some(x) => Some(x@),
            None => None::<ExprView>,
        });
        match self.declare(&name) {
            Ok(()) => {},
            Err(e) => {
                return Err(e);
            },
        }
        let init = match initializer {
            Some(e) => {
                let x = match self.visit_expression(e) {
                    Ok(v) => v,
                    Err(err) => {
                        return Err(err);
                    },
                };
                Some(x)
            },
            None => None,
        };
        let _ = self.define(&name);
        assert(opt_expr_view(init) == match init {
            Some(x) => Some(x@),
            None => None::<ExprView>,
        });
        let ghost nv = name@;
        let result = Statement::Var { name, initializer: init };
        assert(result@ == StatementView::Var { name: nv, initializer: opt_expr_view(init) });
        Ok(result)
    }

    /// Resolves a class declaration: its name declared and defined, then
    /// its methods, each as a function, inside a scope binding `this`.
    #[verifier::spinoff_prover]
    #[verifier::rlimit(100)]
    fn visit_class_statement(
        &mut self,
        name: Token,
        superclass: Option<Expr>,
        methods: Vec<Statement>,
        static_fields: Vec<Statement>,
        static_methods: Vec<Statement>,
    ) -> (r: Result<Statement, ParseError>)
        requires
            old(self).wf(),
        ensures
            final(self).wf(),
            match res_stmt(
                StatementView::Class {
                    name: name@,
                    superclass: opt_expr_view(superclass),
                    methods: statements_view(methods@),
                    static_fields: statements_view(static_fields@),
                    static_methods: statements_view(static_methods@),
                },
                old(self).state(),
            ) {
                Ok((v, st)) => r is Ok && r->Ok_0@ == v && final(self).state() == st,
                Err(e) => r is Err && r->Err_0@ == e,
            },
        decreases methods, 3int,
    {
        match self.declare(&name) {
            Ok(()) => {},
            Err(e) => {
                return Err(e);
            },
        }
        let _ = self.define(&name);
        let ghost s2 = self.state();
        let saved = self.saved_scopes();
        let enclosing = self.current_class;
        let enclosing_function = self.current_function;
        self.current_class = ClassType::Class;
        let _ = self.begin_scope();
        assert(lookups_view(self.scopes@).len() == self.scopes@.len());
        let this = String::from_str("this");
        self.mark(this, true);
        assert(self.state().scopes =~= s2.scopes.push(Map::<Seq<char>, bool>::empty().insert("this"@, true)));
        assert(self.state() == Resolution {
            scopes: s2.scopes.push(Map::<Seq<char>, bool>::empty().insert("this"@, true)),
            in_function: s2.in_function,
            in_class: true,
        });
        let ms = match self.resolve_methods(methods) {
            Ok(v) => v,
            Err(e) => {
                return Err(e);
            },
        };
        self.scopes = saved;
        self.current_class = enclosing;
        self.current_function = enclosing_function;
        let ghost nv = name@;
        let ghost sv = opt_expr_view(superclass);
        let ghost mv = statements_view(ms@);
        let ghost fv = statements_view(static_fields@);
        let ghost smv = statements_view(static_methods@);
        let result = Statement::Class { name, superclass, methods: ms, static_fields, static_methods };
        assert(result@ == StatementView::Class {
            name: nv,
            superclass: sv,
            methods: mv,
            static_fields: fv,
            static_methods: smv,
        });
        Ok(result)
    }

    /// Resolves methods in order.
    #[verifier::loop_isolation(false)]
    fn resolve_methods(&mut self, ms: Vec<Statement>) -> (r: Result<Vec<Statement>, ParseError>)
        requires
            old(self).wf(),
        ensures
            final(self).wf(),
            match res_methods(statements_view(ms@), 0, Seq::empty(), old(self).state()) {
                Ok(v) => r is Ok && statements_view(r->Ok_0@) == v && final(self).state() == old(self).state(),
                Err(e) => r is Err && r->Err_0@ == e,
            },
        decreases ms, 2int,
    {
        let ghost orig = ms@;
        let ghost sv = ms;
        let n = ms.len();
        let ghost all = statements_view(ms@);
        proof {
            lemma_statements_view_index(ms@);
        }
        let mut rest = ms;
        let mut out: Vec<Statement> = Vec::new();
        assert(statements_view(out@) =~= Seq::empty());
        assert(orig.subrange(0, orig.len() as int) =~= orig);
        let mut i: usize = 0;
        while rest.len() > 0
            invariant
                self.wf(),
                self.state() == old(self).state(),
                i <= orig.len(),
                orig.len() == n,
                sv@ == orig,
                rest@ == orig.subrange(i as int, orig.len() as int),
                all == statements_view(orig),
                all.len() == orig.len(),
                forall|j: int| 0 <= j < orig.len() ==> #[trigger] all[j] == orig[j]@,
                res_methods(all, 0, Seq::empty(), old(self).state()) == res_methods(
                    all,
                    i as int,
                    statements_view(out@),
                    old(self).state(),
                ),
            decreases rest@.len(),
        {
            assert(rest@.len() > 0);
            assert(i < orig.len());
            let x = rest.remove(0);
            assert(x == orig[i as int]);
            assert(all[i as int] == x@);
            proof {
                assert(decreases_to!(sv => sv@));
                assert(decreases_to!(sv@ => sv@[i as int]));
                assert(decreases_to!(sv => x));
            }
            match self.resolve_method(x) {
                Ok(y) => {
                    proof {
                        lemma_statements_view_push(out@, y);
                    }
                    out.push(y);
                },
                Err(e) => {
                    return Err(e);
                },
            }
            i = i + 1;
            assert(rest@ =~= orig.subrange(i as int, orig.len() as int));
        }
        Ok(out)
    }

    /// Resolves a method: a function declaration's body as a function;
    /// anything else is left as it is.
    fn resolve_method(&mut self, m: Statement) -> (r: Result<Statement, ParseError>)
        requires
            old(self).wf(),
        ensures
            final(self).wf(),
            match res_method(m@, old(self).state()) {
                Ok(v) => r is Ok && r->Ok_0@ == v && final(self).state() == old(self).state(),
                Err(e) => r is Err && r->Err_0@ == e,
            },
        decreases m, 4int,
    {
        match m {
            Statement::Function { name, params, body, is_getter } => {
                let b = match self.resolve_function(&params, body) {
                    Ok(v) => v,
                    Err(e) => {
                        return Err(e);
                    },
                };
                Ok(Statement::Function { name, params, body: b, is_getter })
            },
            other => Ok(other),
        }
    }
}

} // verus!
