//! User functions: declared ones, lambdas and methods.
use vstd::prelude::*;
use crate::lexer::token::{Token, TokenView};
use crate::ast::statement::{Statement, StatementView, statements_view};
use crate::runtime::value::Value;
use crate::runtime::error::{ControlFlow, ControlFlowView, RuntimeError, RuntimeErrorView};
use crate::runtime::environment::Environments;
use crate::text::append_str;

verus! {

/// A function: its name, parameter names, body, the scope it closes over
/// (by index), whether it is a class initializer and whether it is a getter.
#[derive(Debug)]
pub struct Function<'a> {
    pub name: String,
    pub params: Vec<String>,
    pub body: &'a Vec<Statement>,
    pub closure: usize,
    pub is_initializer: bool,
    pub is_getter: bool,
}

/// The mathematical view of a function.
pub struct FunctionView {
    pub name: Seq<char>,
    pub params: Seq<Seq<char>>,
    pub body: Seq<StatementView>,
    pub closure: usize,
    pub is_initializer: bool,
    pub is_getter: bool,
}

/// The views of strings.
pub open spec fn strings_view(ss: Seq<String>) -> Seq<Seq<char>> {
    ss.map_values(|s: String| s@)
}

/// The lexemes of tokens.
pub open spec fn lexemes_of(ts: Seq<TokenView>) -> Seq<Seq<char>> {
    ts.map_values(|t: TokenView| t.lexeme)
}

impl<'a> View for Function<'a> {
    type V = FunctionView;

    open spec fn view(&self) -> FunctionView {
        FunctionView {
            name: self.name@,
            params: strings_view(self.params@),
            body: statements_view(self.body@),
            closure: self.closure,
            is_initializer: self.is_initializer,
            is_getter: self.is_getter,
        }
    }
}

/// A copy of strings.
pub fn copy_strings(ss: &Vec<String>) -> (r: Vec<String>)
    ensures
        r@ == ss@,
{
    let mut r: Vec<String> = Vec::new();
    let mut i: usize = 0;
    while i < ss.len()
        invariant
            i <= ss@.len(),
            r@ == ss@.subrange(0, i as int),
        decreases ss@.len() - i,
    {
        r.push(ss[i].clone());
        i = i + 1;
        assert(r@ =~= ss@.subrange(0, i as int));
    }
    assert(r@ =~= ss@);
    r
}

/// The lexemes of tokens, in order.
pub fn lexemes(tokens: &Vec<Token>) -> (r: Vec<String>)
    ensures
        strings_view(r@) == lexemes_of(tokens@.map_values(|t: Token| t@)),
{
    let mut r: Vec<String> = Vec::new();
    let mut i: usize = 0;
    while i < tokens.len()
        invariant
            i <= tokens@.len(),
            r@.len() == i,
            forall|k: int| 0 <= k < i ==> (#[trigger] r@[k])@ == tokens@[k].lexeme@,
        decreases tokens@.len() - i,
    {
        r.push(tokens[i].lexeme.clone());
        i = i + 1;
    }
    assert(strings_view(r@) =~= lexemes_of(tokens@.map_values(|t: Token| t@)));
    r
}

/// The error of making a function from a statement that declares none.
pub open spec fn not_a_function() -> ControlFlowView {
    ControlFlowView::RuntimeError(RuntimeErrorView { line: 0, message: "Expected a function statement."@ })
}

impl<'a> Function<'a> {
    /// The function a function declaration declares, closing over scope
    /// `closure`; an error for any other statement.
    pub fn from_statement(stmt: &'a Statement, closure: usize, is_initializer: bool) -> (r: Result<Function<'a>, ControlFlow>)
        ensures
            match stmt@ {
                StatementView::Function { name, params, body, is_getter } => r is Ok && r->Ok_0@ == FunctionView {
                    name: name.lexeme,
                    params: lexemes_of(params),
                    body,
                    closure,
                    is_initializer,
                    is_getter,
                },
                _ => r is Err && r->Err_0@ == not_a_function(),
            },
    {
        match stmt {
            Statement::Function { name, params, body, is_getter } => Ok(
                Function {
                    name: name.lexeme.clone(),
                    params: lexemes(params),
                    body,
                    closure,
                    is_initializer,
                    is_getter: *is_getter,
                },
            ),
            _ => Err(
                ControlFlow::RuntimeError(RuntimeError::new(0, String::from_str("Expected a function statement."))),
            ),
        }
    }

    /// A function made of its parts; it is no getter.
    pub fn new(name: String, params: Vec<String>, body: &'a Vec<Statement>, closure: usize, is_initializer: bool) -> (r: Self)
        ensures
            r@ == (FunctionView {
                name: name@,
                params: strings_view(params@),
                body: statements_view(body@),
                closure,
                is_initializer,
                is_getter: false,
            }),
    {
        Function { name, params, body, closure, is_initializer, is_getter: false }
    }

    /// A copy of the function, sharing its body.
    pub fn copy(&self) -> (r: Self)
        ensures
            r@ == self@,
            r.body == self.body,
    {
        Function {
            name: self.name.clone(),
            params: copy_strings(&self.params),
            body: self.body,
            closure: self.closure,
            is_initializer: self.is_initializer,
            is_getter: self.is_getter,
        }
    }

    /// The number of parameters.
    pub fn arity(&self) -> (r: usize)
        ensures
            r == self@.params.len(),
    {
        self.params.len()
    }

    /// The function's name.
    pub fn name(&self) -> (r: &str)
        ensures
            r@ == self@.name,
    {
        self.name.as_str()
    }

    /// Whether the function is a class initializer.
    pub fn is_initializer(&self) -> (r: bool)
        ensures
            r == self@.is_initializer,
    {
        self.is_initializer
    }

    /// How the function prints: `<fn name>`.
    pub fn to_string(&self) -> (r: String)
        ensures
            r@ == "<fn "@ + self@.name + ">"@,
    {
        let mut s = String::from_str("<fn ");
        append_str(&mut s, self.name.as_str());
        append_str(&mut s, ">");
        s
    }

    /// The method bound to an instance: the same function, closing over a
    /// new scope (inside its own) that binds `this` to the instance.
    pub fn bind(&self, environments: &mut Environments, instance: usize) -> (r: Self)
        requires
            old(environments).wf(),
            self.closure < old(environments).count(),
        ensures
            final(environments).wf(),
            final(environments).count() == old(environments).count() + 1,
            r.closure == old(environments).count(),
            final(environments).parent(r.closure as int) == Some(self.closure),
            final(environments).scope(r.closure as int) == Map::<Seq<char>, crate::runtime::value::ValueView>::empty().insert(
                "this"@,
                crate::runtime::value::ValueView::Instance(instance),
            ),
            forall|i: int| 0 <= i < old(environments).count() ==> final(environments).scope(i) == old(environments).scope(i)
                && final(environments).parent(i) == old(environments).parent(i),
            r@ == (FunctionView { closure: r.closure, ..self@ }),
            r.body == self.body,
    {
        let scope = environments.new_scope(self.closure);
        environments.define(scope, String::from_str("this"), Value::Instance(instance));
        let mut f = self.copy();
        f.closure = scope;
        f
    }
}

} // verus!
