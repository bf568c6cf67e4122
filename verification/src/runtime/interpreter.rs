//! The tree-walking interpreter.
//!
//! Scopes, functions, classes and instances live in tables that the
//! interpreter owns; values refer to them by index. Every evaluation step
//! spends one unit of a budget, so that evaluation always ends: a program
//! that exhausts it stops with an error.
use vstd::prelude::*;
use crate::lexer::token::{tokens_view, Token, TokenView};
use crate::ast::expr::{exprs_view, lemma_exprs_view_index, Depth, Expr, ExprView};
use crate::ast::statement::{opt_expr_view, Statement, StatementView, statements_view};
use crate::runtime::value::{is_truthy, truthy, Callable, Value, ValueView};
use crate::runtime::error::{ControlFlow, ControlFlowView, RuntimeError, RuntimeErrorView};
use crate::runtime::environment::{bindings_of, lemma_ancestor_kept, lemma_get_after_assign, undefined_error, Environment, Environments};
use crate::runtime::function::{lexemes, lexemes_of, not_a_function, Function, FunctionView};
use crate::runtime::class::{functions_view, last_named, Class};
use crate::runtime::instance::Instance;
use crate::runtime::operations::{
    binary_operation, binary_value, error, error_at, literal, literal_value, unary_operation, unary_value,
};
use crate::runtime::clock::Clock;
use crate::text::{append_str, decimal_text, isize_to_decimal};

verus! {

/// A piece of what `print` writes: text, or a double, to be written in the
/// shortest decimal form that reads back as the same double.
#[derive(Debug)]
pub enum Printed {
    Text(String),
    Float(u64),
}

/// The mathematical view of a printed piece.
pub enum PrintedView {
    Text(Seq<char>),
    Float(u64),
}

impl View for Printed {
    type V = PrintedView;

    open spec fn view(&self) -> PrintedView {
        match self {
            Printed::Text(s) => PrintedView::Text(s@),
            Printed::Float(f) => PrintedView::Float(*f),
        }
    }
}

/// The message of a call with the wrong number of arguments.
pub open spec fn arity_message(expected: usize, got: usize) -> Seq<char> {
    "Expected "@ + decimal_text(expected as int) + " arguments but got "@ + decimal_text(got as int) + "."@
}

/// Accepts a call with as many arguments as the callee takes, and refuses
/// any other at the call's closing parenthesis.
pub fn check_arity(expected: usize, got: usize, paren: &Token) -> (r: Result<(), RuntimeError>)
    ensures
        expected == got <==> r is Ok,
        r is Err ==> r->Err_0@ == error_at(paren@, arity_message(expected, got)),
{
    if got != expected {
        let mut m = String::from_str("Expected ");
        append_str(&mut m, crate::text::usize_to_decimal(expected).as_str());
        append_str(&mut m, " arguments but got ");
        append_str(&mut m, crate::text::usize_to_decimal(got).as_str());
        append_str(&mut m, ".");
        return Err(error(paren, m.as_str()));
    }
    Ok(())
}

/// The error of a program that ran out of evaluation steps.
pub open spec fn exhausted() -> ControlFlowView {
    ControlFlowView::RuntimeError(RuntimeErrorView { line: 0, message: "Evaluation step limit reached."@ })
}

/// The interpreter: its tables, the current scope, what has been printed,
/// and the evaluation steps left.
pub struct Interpreter<'a> {
    environments: Environments,
    globals: usize,
    environment: usize,
    functions: Vec<Function<'a>>,
    classes: Vec<Class<'a>>,
    instances: Vec<Instance>,
    output: Vec<Printed>,
    steps: u64,
}

/// The value a variable expression stands for, seen from scope `frame`: a
/// global if it was not resolved, else the binding found from the scope
/// `depth` steps out.
pub open spec fn lookup_result(envs: Environments, frame: int, name: TokenView, depth: Depth) -> Result<ValueView, RuntimeErrorView> {
    let found = match depth {
        Depth::Unresolved => envs.resolve(0, name.lexeme),
        Depth::Resolved(d) => match envs.ancestor(frame, d as nat) {
            Some(a) => envs.resolve(a, name.lexeme),
            None => None,
        },
    };
    match found {
        Some(v) => Ok(v),
        None => Err(undefined_error(name.lexeme, name.line)),
    }
}

/// An expression made only of literals, variables, grouping, and unary,
/// binary and logical operators: one whose evaluation changes nothing.
pub open spec fn pure_expr(e: ExprView) -> bool
    decreases e,
{
    match e {
        ExprView::Literal { .. } => true,
        ExprView::Variable { .. } => true,
        ExprView::Grouping { expression } => pure_expr(*expression),
        ExprView::Unary { right, .. } => pure_expr(*right),
        ExprView::Binary { left, right, .. } => pure_expr(*left) && pure_expr(*right),
        ExprView::LogicOr { left, right } => pure_expr(*left) && pure_expr(*right),
        ExprView::LogicAnd { left, right } => pure_expr(*left) && pure_expr(*right),
        _ => false,
    }
}

/// The number of nodes of an expression, the most evaluation steps it can
/// take when it is pure.
pub open spec fn expr_size(e: ExprView) -> nat
    decreases e,
{
    match e {
        ExprView::Grouping { expression } => 1 + expr_size(*expression),
        ExprView::Unary { right, .. } => 1 + expr_size(*right),
        ExprView::Binary { left, right, .. } => 1 + expr_size(*left) + expr_size(*right),
        ExprView::LogicOr { left, right } => 1 + expr_size(*left) + expr_size(*right),
        ExprView::LogicAnd { left, right } => 1 + expr_size(*left) + expr_size(*right),
        _ => 1,
    }
}

/// The value of a pure expression seen from scope `frame`, or the first
/// error its evaluation raises: operands left to right, `and` and `or`
/// evaluating their right operand only when the left one does not decide.
pub open spec fn pure_value(envs: Environments, frame: int, e: ExprView) -> Result<ValueView, RuntimeErrorView>
    decreases e,
{
    match e {
        ExprView::Literal { value } => Ok(literal_value(value)),
        ExprView::Variable { name, depth } => lookup_result(envs, frame, name, depth),
        ExprView::Grouping { expression } => pure_value(envs, frame, *expression),
        ExprView::Unary { operator, right } => match pure_value(envs, frame, *right) {
            Err(x) => Err(x),
            Ok(v) => unary_value(operator, v),
        },
        ExprView::Binary { left, operator, right } => match pure_value(envs, frame, *left) {
            Err(x) => Err(x),
            Ok(a) => match pure_value(envs, frame, *right) {
                Err(x) => Err(x),
                Ok(b) => binary_value(operator, a, b),
            },
        },
        ExprView::LogicOr { left, right } => match pure_value(envs, frame, *left) {
            Err(x) => Err(x),
            Ok(a) => if truthy(a) {
                Ok(a)
            } else {
                pure_value(envs, frame, *right)
            },
        },
        ExprView::LogicAnd { left, right } => match pure_value(envs, frame, *left) {
            Err(x) => Err(x),
            Ok(a) => if !truthy(a) {
                Ok(a)
            } else {
                pure_value(envs, frame, *right)
            },
        },
        _ => Err(RuntimeErrorView { line: 0, message: Seq::empty() }),
    }
}

/// How a number, string, boolean or nil prints.
pub open spec fn plain_printed(v: ValueView) -> PrintedView {
    match v {
        ValueView::Integer(i) => PrintedView::Text(decimal_text(i as int)),
        ValueView::Float(f) => PrintedView::Float(f),
        ValueView::Str(s) => PrintedView::Text(s),
        ValueView::Bool(b) => PrintedView::Text(if b { "true"@ } else { "false"@ }),
        _ => PrintedView::Text("nil"@),
    }
}

/// Whether a value is a number, string, boolean or nil.
pub open spec fn plain(v: ValueView) -> bool {
    !(v is Callable) && !(v is Instance)
}

/// How a value prints in a state: a number, string, boolean or nil as
/// `plain_printed` says; the clock as `<native fn clock>`; a function as
/// `<fn name>`, a class as `<class name>` and an instance as
/// `<instance of name>` with its class's name; an index that names nothing
/// as `<fn>`, `<class>` or `<instance>`.
pub open spec fn displayed<'a>(s: Interpreter<'a>, v: ValueView) -> PrintedView {
    match v {
        ValueView::Callable(Callable::Clock) => PrintedView::Text("<native fn clock>"@),
        ValueView::Callable(Callable::Function(i)) => if i < s.function_views().len() {
            PrintedView::Text("<fn "@ + s.function_views()[i as int].name + ">"@)
        } else {
            PrintedView::Text("<fn>"@)
        },
        ValueView::Callable(Callable::Class(i)) => if i < s.class_names().len() {
            PrintedView::Text("<class "@ + s.class_names()[i as int] + ">"@)
        } else {
            PrintedView::Text("<class>"@)
        },
        ValueView::Instance(i) => if i < s.instance_classes().len() && s.instance_classes()[i as int]
            < s.class_names().len() {
            PrintedView::Text("<instance of "@ + s.class_names()[s.instance_classes()[i as int] as int] + ">"@)
        } else {
            PrintedView::Text("<instance>"@)
        },
        _ => plain_printed(v),
    }
}

/// A variable reads back what its declaration bound: once a scope binds
/// `name` to `value`, a use of the name resolved to that scope (distance 0)
/// evaluates to the value, and so does an unresolved (global) use when the
/// scope is the global one.
pub proof fn lemma_variable_reads_declaration(before: Environments, after: Environments, frame: int, name: TokenView, value: ValueView)
    requires
        before.wf(),
        after.wf(),
        0 <= frame < before.count(),
        after.count() == before.count(),
        after.scope(frame) == before.scope(frame).insert(name.lexeme, value),
    ensures
        lookup_result(after, frame, name, Depth::Resolved(0)) == Ok::<ValueView, RuntimeErrorView>(value),
        frame == 0 ==> lookup_result(after, frame, name, Depth::Unresolved) == Ok::<ValueView, RuntimeErrorView>(value),
{
    crate::runtime::environment::lemma_get_after_define(before, after, frame, name.lexeme, value);
}

/// The scope an assignment to `name` rebinds, seen from scope `frame`: the
/// innermost binding scope from the global scope if the assignment was not
/// resolved, else from the scope `depth` steps out.
pub open spec fn assign_target(envs: Environments, frame: int, name: Seq<char>, depth: Depth) -> Option<int> {
    match depth {
        Depth::Unresolved => envs.holder(0, name),
        Depth::Resolved(d) => match envs.ancestor(frame, d as nat) {
            Some(a) => envs.holder(a, name),
            None => None,
        },
    }
}

/// An assignment of `value` to `name` from scope `frame`: the target scope
/// rebinds the name and the value is the result, every other scope is as it
/// was; with no target nothing changes and the result is the error of an
/// undefined variable.
pub open spec fn assigned(
    before: Environments,
    after: Environments,
    frame: int,
    name: TokenView,
    depth: Depth,
    value: ValueView,
    r: Result<Value, ControlFlow>,
) -> bool {
    &&& after.count() == before.count()
    &&& match assign_target(before, frame, name.lexeme, depth) {
        Some(h) => r is Ok && r->Ok_0@ == value && after.scope(h) == before.scope(h).insert(name.lexeme, value)
            && forall|i: int| 0 <= i < before.count() && i != h ==> after.scope(i) == before.scope(i),
        None => r is Err && r->Err_0@ == ControlFlowView::RuntimeError(undefined_error(name.lexeme, name.line))
            && forall|i: int| 0 <= i < before.count() ==> after.scope(i) == before.scope(i),
    }
}

/// What evaluating an expression does: the state advances, every scope
/// keeps the names it binds, and a value costs budget; with no budget left the step limit is reached; otherwise,
/// once its step is spent, the expression has its effect. A pure expression
/// within the budget gives its value, or the error its evaluation raises,
/// and changes nothing but the budget.
pub open spec fn expression_step<'a>(
    before: Interpreter<'a>,
    e: ExprView,
    after: Interpreter<'a>,
    r: Result<Value, ControlFlow>,
) -> bool
    decreases before.budget(), 30int,
{
    &&& before.advanced(&after)
    &&& names_kept(before, after)
    &&& r is Ok ==> after.budget() < before.budget()
    &&& before.budget() == 0 ==> r is Err && r->Err_0@ == exhausted()
    &&& before.budget() > 0 ==> exists|stepped: Interpreter<'a>|
        #[trigger] stepped_from(before, stepped) && expression_effect(stepped, e, after, r)
    &&& before.budget() > 0 ==> (e matches ExprView::Literal { value } ==> r is Ok && r->Ok_0@ == literal_value(
        value,
    ))
    &&& before.budget() > 0 ==> (e matches ExprView::Variable { name, depth } ==> lookup_outcome(
        before,
        name,
        depth,
        r,
    ))
    &&& pure_expr(e) && expr_size(e) <= before.budget() ==> matches_pure(
        r,
        pure_value(before.scopes(), before.current(), e),
    ) && before.same_state(&after) && after.budget() + expr_size(e) >= before.budget()
}

/// What a variable (or `this`) expression gives: the value it is bound to,
/// or the error of an undefined variable.
pub open spec fn lookup_outcome<'a>(
    before: Interpreter<'a>,
    name: TokenView,
    depth: Depth,
    r: Result<Value, ControlFlow>,
) -> bool {
    match lookup_result(before.scopes(), before.current(), name, depth) {
        Ok(v) => r is Ok && r->Ok_0@ == v,
        Err(x) => r is Err && r->Err_0@ == ControlFlowView::RuntimeError(x),
    }
}

/// Every scope that existed keeps the names it binds; their values may
/// change.
pub open spec fn names_kept<'a>(before: Interpreter<'a>, after: Interpreter<'a>) -> bool {
    forall|i: int|
        0 <= i < before.scopes().count() ==> #[trigger] after.scopes().scope(i).dom() == before.scopes().scope(
            i,
        ).dom()
}

/// Every scope that existed, but scope `frame`, keeps the names it binds.
pub open spec fn names_kept_outside<'a>(before: Interpreter<'a>, after: Interpreter<'a>, frame: int) -> bool {
    forall|i: int|
        0 <= i < before.scopes().count() && i != frame ==> #[trigger] after.scopes().scope(i).dom()
            == before.scopes().scope(i).dom()
}

/// Keeping names chains: what `a` to `b` and `b` to `c` keep, `a` to `c`
/// keeps, when `b` has at least the scopes of `a`.
proof fn lemma_kept_chain<'a>(a: Interpreter<'a>, b: Interpreter<'a>, c: Interpreter<'a>, frame: int)
    requires
        names_kept_outside(a, b, frame),
        names_kept_outside(b, c, frame),
        a.scopes().count() <= b.scopes().count(),
    ensures
        names_kept_outside(a, c, frame),
{
    assert forall|i: int| 0 <= i < a.scopes().count() && i != frame implies #[trigger] c.scopes().scope(i).dom()
        == a.scopes().scope(i).dom() by {
        assert(b.scopes().scope(i).dom() == a.scopes().scope(i).dom());
        assert(c.scopes().scope(i).dom() == b.scopes().scope(i).dom());
    }
}

/// Keeping every scope's names chains.
proof fn lemma_names_chain<'a>(a: Interpreter<'a>, b: Interpreter<'a>, c: Interpreter<'a>)
    requires
        names_kept(a, b),
        names_kept(b, c),
        a.scopes().count() <= b.scopes().count(),
    ensures
        names_kept(a, c),
{
    assert forall|i: int| 0 <= i < a.scopes().count() implies #[trigger] c.scopes().scope(i).dom()
        == a.scopes().scope(i).dom() by {
        assert(b.scopes().scope(i).dom() == a.scopes().scope(i).dom());
        assert(c.scopes().scope(i).dom() == b.scopes().scope(i).dom());
    }
}

/// Keeping every scope's names keeps those outside any one scope.
proof fn lemma_kept_outside<'a>(a: Interpreter<'a>, b: Interpreter<'a>, frame: int)
    requires
        names_kept(a, b),
    ensures
        names_kept_outside(a, b, frame),
{
    assert forall|i: int| 0 <= i < a.scopes().count() && i != frame implies #[trigger] b.scopes().scope(i).dom()
        == a.scopes().scope(i).dom() by {
        assert(b.scopes().scope(i).dom() == a.scopes().scope(i).dom());
    }
}

/// Keeping the names outside a scope made after `a` keeps them all.
proof fn lemma_kept_all<'a>(a: Interpreter<'a>, b: Interpreter<'a>, frame: int)
    requires
        names_kept_outside(a, b, frame),
        frame >= a.scopes().count() || frame < 0,
    ensures
        names_kept(a, b),
{
    assert forall|i: int| 0 <= i < a.scopes().count() implies #[trigger] b.scopes().scope(i).dom()
        == a.scopes().scope(i).dom() by {
        assert(i != frame);
    }
}

/// What an evaluation from `before` that reached `after` with outcome `r`
/// spent: no budget is won, and a value costs at least one step.
pub open spec fn evaluation<'a>(before: Interpreter<'a>, after: Interpreter<'a>, r: Result<Value, ControlFlow>) -> bool {
    &&& after.budget() <= before.budget()
    &&& r is Ok ==> after.budget() < before.budget()
}

/// The effect of each kind of expression, from the state its step left:
/// - a literal gives its value, a variable or `this` what it is bound to;
/// - grouping evaluates the inner expression;
/// - unary and binary operators evaluate their operands left to right and
///   apply the operator; `and` and `or` evaluate the right operand only when
///   the left one does not decide;
/// - an assignment evaluates the value and rebinds the variable;
/// - a call evaluates the callee, then the arguments, and calls;
/// - a property read or write evaluates the object (and the value) and reads
///   or sets the property;
/// - a lambda adds a function closing over the current scope.
/// An error raised on the way is the result.
pub open spec fn expression_effect<'a>(
    before: Interpreter<'a>,
    e: ExprView,
    after: Interpreter<'a>,
    r: Result<Value, ControlFlow>,
) -> bool
    decreases before.budget() + 1, 29int,
{
    match e {
        ExprView::Literal { value } => r is Ok && r->Ok_0@ == literal_value(value) && after == before,
        ExprView::Variable { name, depth } => lookup_outcome(before, name, depth, r) && after == before,
        ExprView::This { keyword, depth } => lookup_outcome(before, keyword, depth, r) && after == before,
        ExprView::Grouping { expression } => expression_step(before, *expression, after, r),
        ExprView::Unary { operator, right } => unary_effect(before, operator, *right, after, r),
        ExprView::Binary { left, operator, right } => operands_then(before, *left, operator, *right, after, r),
        ExprView::LogicOr { left, right } => short_circuit(before, *left, *right, after, r, true),
        ExprView::LogicAnd { left, right } => short_circuit(before, *left, *right, after, r, false),
        ExprView::Assign { name, value, depth } => assign_effect(before, name, *value, depth, after, r),
        ExprView::Call { callee, paren, arguments } => call_effect(before, *callee, paren, arguments, after, r),
        ExprView::Get { object, name } => get_effect(before, *object, name, after, r),
        ExprView::SetProperty { object, name, value } => set_effect(before, *object, name, *value, after, r),
        ExprView::Lambda { params, body } => lambda_effect(before, params, body, after, r),
    }
}

/// A unary operator: the operand is evaluated; its error is the result,
/// else the operator applied to its value.
pub open spec fn unary_effect<'a>(
    before: Interpreter<'a>,
    operator: TokenView,
    right: ExprView,
    after: Interpreter<'a>,
    r: Result<Value, ControlFlow>,
) -> bool
    decreases before.budget() + 1, 28int,
{
    exists|a: Result<Value, ControlFlow>|
        #[trigger] evaluation(before, after, a) && expression_step(before, right, after, a) && match a {
            Err(_) => r == a,
            Ok(x) => match unary_value(operator, x@) {
                Ok(z) => r is Ok && r->Ok_0@ == z,
                Err(e) => r is Err && r->Err_0@ == ControlFlowView::RuntimeError(e),
            },
        }
}

/// A binary operator: the operands are evaluated left to right; the first
/// error raised is the result, else the operator applied to the two values.
pub open spec fn operands_then<'a>(
    before: Interpreter<'a>,
    left: ExprView,
    operator: TokenView,
    right: ExprView,
    after: Interpreter<'a>,
    r: Result<Value, ControlFlow>,
) -> bool
    decreases before.budget() + 1, 28int,
{
    exists|mid: Interpreter<'a>, a: Result<Value, ControlFlow>|
        #[trigger] evaluation(before, mid, a) && expression_step(before, left, mid, a) && match a {
            Err(_) => r == a && after == mid,
            Ok(x) => exists|b: Result<Value, ControlFlow>|
                #[trigger] evaluation(mid, after, b) && expression_step(mid, right, after, b) && match b {
                    Err(_) => r == b,
                    Ok(y) => match binary_value(operator, x@, y@) {
                        Ok(z) => r is Ok && r->Ok_0@ == z,
                        Err(e) => r is Err && r->Err_0@ == ControlFlowView::RuntimeError(e),
                    },
                },
        }
}

/// A short-circuit operator: the left operand is evaluated first; its
/// error is the result; if it decides (true for `or`, false for `and`) its
/// value is the result, else the result is the right operand's evaluation.
pub open spec fn short_circuit<'a>(
    before: Interpreter<'a>,
    left: ExprView,
    right: ExprView,
    after: Interpreter<'a>,
    r: Result<Value, ControlFlow>,
    decides_when: bool,
) -> bool
    decreases before.budget() + 1, 28int,
{
    exists|mid: Interpreter<'a>, a: Result<Value, ControlFlow>|
        #[trigger] evaluation(before, mid, a) && expression_step(before, left, mid, a) && match a {
            Err(_) => r == a && after == mid,
            Ok(x) => if truthy(x@) == decides_when {
                r == a && after == mid
            } else {
                expression_step(mid, right, after, r)
            },
        }
}

/// An assignment: the value is evaluated; its error is the result, else the
/// variable is rebound to it (see `assigned`).
pub open spec fn assign_effect<'a>(
    before: Interpreter<'a>,
    name: TokenView,
    value: ExprView,
    depth: Depth,
    after: Interpreter<'a>,
    r: Result<Value, ControlFlow>,
) -> bool
    decreases before.budget() + 1, 28int,
{
    exists|mid: Interpreter<'a>, a: Result<Value, ControlFlow>|
        #[trigger] evaluation(before, mid, a) && expression_step(before, value, mid, a) && match a {
            Err(_) => r == a && after == mid,
            Ok(v) => assigned(mid.scopes(), after.scopes(), before.current(), name, depth, v@, r) && after.printed()
                == mid.printed() && after.budget() == mid.budget(),
        }
}

/// How a run of evaluations (a call's arguments, a class's static
/// fields) starts: from state `start`.
pub open spec fn argument_frames<'a>(
    start: Interpreter<'a>,
    states: Seq<Interpreter<'a>>,
    outcomes: Seq<Result<Value, ControlFlow>>,
) -> bool {
    &&& states.len() == outcomes.len() + 1
    &&& states[0] == start
}

/// A call: the callee is evaluated, then the arguments left to right; the
/// first error is the result; a callee that is no callable is an error at
/// the closing parenthesis; else the call goes on as
/// `call_after_arguments` says.
pub open spec fn call_effect<'a>(
    before: Interpreter<'a>,
    callee: ExprView,
    paren: TokenView,
    arguments: Seq<ExprView>,
    after: Interpreter<'a>,
    r: Result<Value, ControlFlow>,
) -> bool
    decreases before.budget() + 1, 28int,
{
    exists|mid: Interpreter<'a>, c: Result<Value, ControlFlow>|
        #[trigger] evaluation(before, mid, c) && expression_step(before, callee, mid, c) && match c {
            Err(_) => r == c && after == mid,
            Ok(Value::Callable(callable)) => exists|
                states: Seq<Interpreter<'a>>,
                outcomes: Seq<Result<Value, ControlFlow>>,
            |
                #[trigger] argument_frames(mid, states, outcomes) && arguments_run(arguments, states, outcomes)
                    && states.last().budget() <= before.budget() && call_after_arguments(
                    states.last(),
                    callable,
                    outcomes,
                    arguments.len(),
                    paren,
                    after,
                    r,
                ),
            Ok(_) => r is Err && r->Err_0@ == ControlFlowView::RuntimeError(
                error_at(paren, "Can only call functions and classes."@),
            ) && after == mid,
        }
}

/// A property read: the object is evaluated; its error is the result; an
/// instance's property is read (see `property_read`); any other value is
/// an error.
pub open spec fn get_effect<'a>(
    before: Interpreter<'a>,
    object: ExprView,
    name: TokenView,
    after: Interpreter<'a>,
    r: Result<Value, ControlFlow>,
) -> bool
    decreases before.budget() + 1, 28int,
{
    exists|mid: Interpreter<'a>, o: Result<Value, ControlFlow>|
        #[trigger] evaluation(before, mid, o) && expression_step(before, object, mid, o) && match o {
            Err(_) => r == o && after == mid,
            Ok(Value::Instance(i)) => property_read(mid, after, i, name, r),
            Ok(_) => r is Err && r->Err_0@ == ControlFlowView::RuntimeError(
                error_at(name, "Only instances have properties."@),
            ) && after == mid,
        }
}

/// A property write: the object, then the value, are evaluated; the first
/// error is the result; the instance's field is set to the value, which is
/// the result; an object that is no instance is an error.
pub open spec fn set_effect<'a>(
    before: Interpreter<'a>,
    object: ExprView,
    name: TokenView,
    value: ExprView,
    after: Interpreter<'a>,
    r: Result<Value, ControlFlow>,
) -> bool
    decreases before.budget() + 1, 28int,
{
    exists|mid: Interpreter<'a>, o: Result<Value, ControlFlow>|
        #[trigger] evaluation(before, mid, o) && expression_step(before, object, mid, o) && match o {
            Err(_) => r == o && after == mid,
            Ok(Value::Instance(i)) => exists|evaluated: Interpreter<'a>, a: Result<Value, ControlFlow>|
                #[trigger] evaluation(mid, evaluated, a) && expression_step(mid, value, evaluated, a) && match a {
                    Err(_) => r == a && after == evaluated,
                    Ok(v) => if i < evaluated.instance_classes().len() {
                        r is Ok && r->Ok_0@ == v@ && after.instance_fields(i as int) == evaluated.instance_fields(
                            i as int,
                        ).insert(name.lexeme, v@) && after.scopes() == evaluated.scopes() && after.printed()
                            == evaluated.printed()
                    } else {
                        r is Err && r->Err_0@ == ControlFlowView::RuntimeError(
                            error_at(name, "Only instances have fields."@),
                        ) && after == evaluated
                    },
                },
            Ok(_) => r is Err && r->Err_0@ == ControlFlowView::RuntimeError(
                error_at(name, "Only instances have fields."@),
            ) && after == mid,
        }
}

/// A lambda: a function named `<lambda>`, closing over the current scope,
/// is added to the table; it is the result.
pub open spec fn lambda_effect<'a>(
    before: Interpreter<'a>,
    params: Seq<TokenView>,
    body: Seq<StatementView>,
    after: Interpreter<'a>,
    r: Result<Value, ControlFlow>,
) -> bool {
    &&& before.advanced(&after)
    &&& r is Ok && r->Ok_0@ == ValueView::Callable(Callable::Function(before.function_views().len() as usize))
    &&& after.function_views() == before.function_views().push(
        FunctionView {
            name: "<lambda>"@,
            params: lexemes_of(params),
            body,
            closure: before.current() as usize,
            is_initializer: false,
            is_getter: false,
        },
    )
    &&& after.scopes() == before.scopes()
    &&& after.printed() == before.printed()
}

/// What running one statement does: the state advances and every scope
/// but the current one keeps the names it binds; with no budget left the
/// step limit is reached; otherwise, once its step is spent, the
/// statement has its effect.
pub open spec fn statement_step<'a>(
    before: Interpreter<'a>,
    s: StatementView,
    after: Interpreter<'a>,
    r: Result<Value, ControlFlow>,
) -> bool
    decreases before.budget(), 30int,
{
    &&& before.advanced(&after)
    &&& names_kept_outside(before, after, before.current())
    &&& before.budget() == 0 ==> r is Err && r->Err_0@ == exhausted()
    &&& before.budget() > 0 ==> exists|stepped: Interpreter<'a>|
        #[trigger] stepped_from(before, stepped) && statement_effect(stepped, s, after, r)
}

/// The state a statement's step leaves: everything as it was, one step
/// less of budget.
pub open spec fn stepped_from<'a>(before: Interpreter<'a>, stepped: Interpreter<'a>) -> bool {
    before.same_state(&stepped) && stepped.budget() == before.budget() - 1
}

/// How the states of a `while` loop's run line up: one test per condition
/// evaluated, one body run per test that held but possibly the last.
pub open spec fn loop_shape<'a>(
    tests: Seq<Interpreter<'a>>,
    bodies_from: Seq<Interpreter<'a>>,
    conds: Seq<Result<Value, ControlFlow>>,
    bodies: Seq<Result<Value, ControlFlow>>,
) -> bool {
    &&& conds.len() > 0
    &&& tests.len() == conds.len() && bodies_from.len() == conds.len()
    &&& bodies.len() + 1 == conds.len() || bodies.len() == conds.len()
}

/// The scope a block's statements run in: a new, empty scope inside the
/// current one, everything else as it was.
pub open spec fn block_entry<'a>(before: Interpreter<'a>, entry: Interpreter<'a>) -> bool {
    &&& entry.scopes().count() == before.scopes().count() + 1
    &&& entry.scopes().scope(before.scopes().count() as int) == Map::<Seq<char>, ValueView>::empty()
    &&& entry.scopes().parent(before.scopes().count() as int) == Some(before.current() as usize)
    &&& forall|j: int| 0 <= j < before.scopes().count() ==> entry.scopes().scope(j) == before.scopes().scope(j)
    &&& entry.budget() == before.budget()
    &&& entry.printed() == before.printed()
}

/// How a run of statements starts and ends: from a state seen as `start`
/// with the current scope `frame`, ending in a state seen as `end`.
pub open spec fn run_frames<'a>(
    start: Interpreter<'a>,
    frame: int,
    end: Interpreter<'a>,
    states: Seq<Interpreter<'a>>,
    outcomes: Seq<Result<Value, ControlFlow>>,
) -> bool {
    &&& states.len() == outcomes.len() + 1
    &&& states[0].scopes() == start.scopes()
    &&& states[0].current() == frame
    &&& states[0].budget() == start.budget()
    &&& states[0].printed() == start.printed()
    &&& end.scopes() == states.last().scopes()
    &&& end.budget() == states.last().budget()
    &&& end.printed() == states.last().printed()
}

/// The effect of each kind of statement, from the state its step left:
/// - an expression statement evaluates the expression;
/// - `print` evaluates it and prints its value;
/// - `var` binds the name in the current scope to the initializer's value,
///   or to nil;
/// - `return` leaves with the value (nil without one);
/// - `if` evaluates the condition, then runs the branch it chooses;
/// - `while` tests and runs the body until the condition fails;
/// - a block runs its statements in a new scope inside the current one;
/// - a function or class declaration binds its name in the current scope.
/// An error raised on the way is the result.
pub open spec fn statement_effect<'a>(
    before: Interpreter<'a>,
    s: StatementView,
    after: Interpreter<'a>,
    r: Result<Value, ControlFlow>,
) -> bool
    decreases before.budget() + 1, 29int,
{
    match s {
        StatementView::Expression { expression } => expression_step(before, expression, after, r),
        StatementView::Print { expression } => print_effect(before, expression, after, r),
        StatementView::Var { name, initializer: None } => r is Ok && r->Ok_0 is Nil && before.advanced(&after)
            && after.scopes().scope(before.current()) == before.scopes().scope(before.current()).insert(
            name.lexeme,
            ValueView::Nil,
        ) && after.printed() == before.printed(),
        StatementView::Var { name, initializer: Some(init) } => var_effect(before, name, init, after, r),
        StatementView::Return { value: None, .. } => r == Err::<Value, ControlFlow>(
            ControlFlow::Return(Value::Nil),
        ) && after == before,
        StatementView::Return { value: Some(e), .. } => return_effect(before, e, after, r),
        StatementView::If { condition, then_branch, else_branch } => exists|
            mid: Interpreter<'a>,
            c: Result<Value, ControlFlow>,
        |
            #[trigger] evaluation(before, mid, c) && expression_step(before, condition, mid, c) && match c {
                Err(_) => r == c && after == mid,
                Ok(v) => if truthy(v@) {
                    statement_step(mid, *then_branch, after, r)
                } else {
                    match else_branch {
                        Some(b) => statement_step(mid, *b, after, r),
                        None => r is Ok && r->Ok_0 is Nil && after == mid,
                    }
                },
            },
        StatementView::While { condition, body } => exists|
            tests: Seq<Interpreter<'a>>,
            bodies_from: Seq<Interpreter<'a>>,
            conds: Seq<Result<Value, ControlFlow>>,
            bodies: Seq<Result<Value, ControlFlow>>,
        |
            #[trigger] loop_shape(tests, bodies_from, conds, bodies) && tests[0] == before && loop_runs(
                condition,
                *body,
                tests,
                bodies_from,
                conds,
                bodies,
                after,
                r,
            ),
        StatementView::Block { statements } => exists|entry: Interpreter<'a>|
            #[trigger] block_entry(before, entry) && block_runs(
                entry,
                before.scopes().count() as int,
                statements,
                after,
                r,
            ),
        StatementView::Function { .. } => function_effect(before, s, after, r),
        StatementView::Class { name, methods, static_fields, static_methods, .. } => class_effect(
            before,
            name,
            methods,
            static_fields,
            static_methods,
            after,
            r,
        ),
    }
}

/// `print`: the expression is evaluated; its error is the result, else the
/// result is nil and the value is printed (see `displayed`).
pub open spec fn print_effect<'a>(
    before: Interpreter<'a>,
    e: ExprView,
    after: Interpreter<'a>,
    r: Result<Value, ControlFlow>,
) -> bool
    decreases before.budget() + 1, 28int,
{
    exists|mid: Interpreter<'a>, a: Result<Value, ControlFlow>|
        #[trigger] evaluation(before, mid, a) && expression_step(before, e, mid, a) && match a {
            Err(_) => r == a && after == mid,
            Ok(v) => r is Ok && r->Ok_0 is Nil && mid.advanced(&after) && after.scopes() == mid.scopes()
                && after.printed() == mid.printed().push(displayed(mid, v@)),
        }
}

/// `var` with an initializer: it is evaluated; its error is the result,
/// else the current scope binds the name to its value, and every other
/// scope is as the evaluation left it.
pub open spec fn var_effect<'a>(
    before: Interpreter<'a>,
    name: TokenView,
    init: ExprView,
    after: Interpreter<'a>,
    r: Result<Value, ControlFlow>,
) -> bool
    decreases before.budget() + 1, 28int,
{
    exists|mid: Interpreter<'a>, a: Result<Value, ControlFlow>|
        #[trigger] evaluation(before, mid, a) && expression_step(before, init, mid, a) && match a {
            Err(_) => r == a && after == mid,
            Ok(v) => r is Ok && r->Ok_0 is Nil && mid.advanced(&after) && after.scopes().scope(before.current())
                == mid.scopes().scope(before.current()).insert(name.lexeme, v@) && after.printed() == mid.printed()
                && after.scopes().count() == mid.scopes().count() && (forall|i: int|
                0 <= i < mid.scopes().count() && i != before.current() ==> #[trigger] after.scopes().scope(i)
                    == mid.scopes().scope(i)),
        }
}

/// `return` with a value: it is evaluated; its error is the result, else
/// the statement leaves with the value.
pub open spec fn return_effect<'a>(
    before: Interpreter<'a>,
    e: ExprView,
    after: Interpreter<'a>,
    r: Result<Value, ControlFlow>,
) -> bool
    decreases before.budget() + 1, 28int,
{
    exists|a: Result<Value, ControlFlow>|
        #[trigger] evaluation(before, after, a) && expression_step(before, e, after, a) && match a {
            Err(_) => r == a,
            Ok(x) => r == Err::<Value, ControlFlow>(ControlFlow::Return(x)),
        }
}

/// A function declaration: the function, closing over the current scope, is
/// added to the table and the current scope binds its name to it.
pub open spec fn function_effect<'a>(
    before: Interpreter<'a>,
    s: StatementView,
    after: Interpreter<'a>,
    r: Result<Value, ControlFlow>,
) -> bool {
    &&& before.advanced(&after)
    &&& match s {
        StatementView::Function { name, params, body, is_getter } => r is Ok && r->Ok_0 is Nil
            && after.function_views() == before.function_views().push(
            FunctionView {
                name: name.lexeme,
                params: lexemes_of(params),
                body,
                closure: before.current() as usize,
                is_initializer: false,
                is_getter,
            },
        ) && after.scopes().scope(before.current()) == before.scopes().scope(before.current()).insert(
            name.lexeme,
            ValueView::Callable(Callable::Function(before.function_views().len() as usize)),
        ) && after.printed() == before.printed(),
        _ => r is Err && r->Err_0@ == not_a_function(),
    }
}

/// The function a method declaration makes, closing over scope `closure`;
/// with `initializers`, one named `init` is the class's initializer.
pub open spec fn method_view(m: StatementView, closure: usize, initializers: bool) -> FunctionView {
    match m {
        StatementView::Function { name, params, body, is_getter } => FunctionView {
            name: name.lexeme,
            params: lexemes_of(params),
            body,
            closure,
            is_initializer: initializers && name.lexeme == "init"@,
            is_getter,
        },
        _ => FunctionView {
            name: Seq::empty(),
            params: Seq::empty(),
            body: Seq::empty(),
            closure,
            is_initializer: false,
            is_getter: false,
        },
    }
}

/// The functions a run of method declarations makes.
pub open spec fn method_views(ms: Seq<StatementView>, closure: usize, initializers: bool) -> Seq<FunctionView> {
    ms.map_values(|m: StatementView| method_view(m, closure, initializers))
}

/// Whether every declaration of a run is a function declaration.
pub open spec fn all_functions(ms: Seq<StatementView>) -> bool {
    forall|j: int| 0 <= j < ms.len() ==> (#[trigger] ms[j]) is Function
}

/// The initializers of a class's static fields, in order: those of the
/// `var` declarations that have one.
pub open spec fn field_initializers(fs: Seq<StatementView>) -> Seq<ExprView>
    decreases fs.len(),
{
    if fs.len() == 0 {
        Seq::empty()
    } else {
        let rest = field_initializers(fs.drop_last());
        match fs.last() {
            StatementView::Var { initializer: Some(e), .. } => rest.push(e),
            _ => rest,
        }
    }
}

/// The initializers of a prefix of the static fields are a prefix of
/// theirs.
proof fn lemma_initializers_prefix(fs: Seq<StatementView>, k: int)
    requires
        0 <= k <= fs.len(),
    ensures
        field_initializers(fs.take(k)).len() <= field_initializers(fs).len(),
        forall|j: int|
            0 <= j < field_initializers(fs.take(k)).len() ==> #[trigger] field_initializers(fs.take(k))[j]
                == field_initializers(fs)[j],
    decreases fs.len(),
{
    if k == fs.len() {
        assert(fs.take(k) =~= fs);
    } else {
        assert(fs.drop_last().take(k) =~= fs.take(k));
        lemma_initializers_prefix(fs.drop_last(), k);
    }
}

/// How a class declaration ends once its static fields were evaluated in
/// state `mid`: the class is added to the table, with its methods and
/// static methods closing over scope `frame`, and scope `frame` binds its
/// name to it; nothing else changes.
pub open spec fn class_declared<'a>(
    mid: Interpreter<'a>,
    name: TokenView,
    methods: Seq<StatementView>,
    static_methods: Seq<StatementView>,
    frame: int,
    after: Interpreter<'a>,
) -> bool {
    let index = mid.class_names().len();
    &&& after.class_names() == mid.class_names().push(name.lexeme)
    &&& after.class_methods(index as int) == method_views(methods, frame as usize, true)
    &&& after.class_static_methods(index as int) == method_views(static_methods, frame as usize, false)
    &&& after.scopes().count() == mid.scopes().count()
    &&& after.scopes().scope(frame) == mid.scopes().scope(frame).insert(
        name.lexeme,
        ValueView::Callable(Callable::Class(index as usize)),
    )
    &&& forall|i: int| 0 <= i < mid.scopes().count() && i != frame ==> #[trigger] after.scopes().scope(i) == mid.scopes().scope(i)
    &&& after.printed() == mid.printed()
    &&& after.budget() == mid.budget()
}

/// A class declaration: a method or static method that is no function
/// declaration is an error, and nothing changes; else the static fields'
/// initializers are evaluated in order, and the first error is the result;
/// else the class is declared (see `class_declared`) and the result is nil.
pub open spec fn class_effect<'a>(
    before: Interpreter<'a>,
    name: TokenView,
    methods: Seq<StatementView>,
    static_fields: Seq<StatementView>,
    static_methods: Seq<StatementView>,
    after: Interpreter<'a>,
    r: Result<Value, ControlFlow>,
) -> bool
    decreases before.budget() + 1, 28int,
{
    &&& before.advanced(&after)
    &&& if all_functions(methods) && all_functions(static_methods) {
        exists|states: Seq<Interpreter<'a>>, outcomes: Seq<Result<Value, ControlFlow>>|
            #[trigger] argument_frames(before, states, outcomes) && arguments_run(
                field_initializers(static_fields),
                states,
                outcomes,
            ) && if outcomes.len() > 0 && outcomes.last() is Err {
                r == outcomes.last() && after == states.last()
            } else {
                r is Ok && r->Ok_0 is Nil && class_declared(
                    states.last(),
                    name,
                    methods,
                    static_methods,
                    before.current(),
                    after,
                )
            }
    } else {
        r is Err && r->Err_0@ == not_a_function() && after == before
    }
}

/// Whether an outcome ends a run of statements: any early exit, or, when
/// `return` does not end it, a runtime error.
pub open spec fn ends_run(o: Result<Value, ControlFlow>, returns_end: bool) -> bool {
    o is Err && (returns_end || o->Err_0 is RuntimeError)
}

/// Statements run in order: statement `j` takes `states[j]` to
/// `states[j + 1]` with outcome `outcomes[j]`; no outcome but the last ends
/// the run, and the run stops before the end only at one that does.
pub open spec fn runs<'a>(
    stmts: Seq<StatementView>,
    states: Seq<Interpreter<'a>>,
    outcomes: Seq<Result<Value, ControlFlow>>,
    returns_end: bool,
) -> bool
    decreases states[0].budget() + 1, 22int,
{
    &&& states.len() == outcomes.len() + 1
    &&& outcomes.len() <= stmts.len()
    &&& forall|j: int|
        0 <= j < outcomes.len() && j < stmts.len() ==> states[j].budget() <= states[0].budget() && statement_step(
            states[j],
            stmts[j],
            states[j + 1],
            #[trigger] outcomes[j],
        )
    &&& forall|j: int| 0 <= j < outcomes.len() - 1 ==> !ends_run(#[trigger] outcomes[j], returns_end)
    &&& outcomes.len() < stmts.len() ==> outcomes.len() > 0 && ends_run(outcomes.last(), returns_end)
}

/// A `while` loop run: test `k` takes `tests[k]` to `bodies_from[k]` with
/// outcome `conds[k]`; while the condition holds, body run `k` takes
/// `bodies_from[k]` to the next test's state (or `end`) with outcome
/// `bodies[k]`. Every test but the last holds and every body run but the
/// last completes; the loop ends at a condition that raises an error (the
/// result), one that does not hold (nil), or a body run that leaves early
/// (the result).
pub open spec fn loop_runs<'a>(
    cond: ExprView,
    body: StatementView,
    tests: Seq<Interpreter<'a>>,
    bodies_from: Seq<Interpreter<'a>>,
    conds: Seq<Result<Value, ControlFlow>>,
    bodies: Seq<Result<Value, ControlFlow>>,
    end: Interpreter<'a>,
    r: Result<Value, ControlFlow>,
) -> bool
    decreases tests[0].budget() + 1, 28int,
{
    &&& conds.len() > 0
    &&& tests.len() == conds.len() && bodies_from.len() == conds.len()
    &&& bodies.len() + 1 == conds.len() || bodies.len() == conds.len()
    &&& loop_tests(cond, tests, bodies_from, conds)
    &&& loop_bodies(body, tests, bodies_from, conds, bodies, end)
    &&& if bodies.len() == conds.len() {
        bodies.last() is Err && r == bodies.last()
    } else {
        end == bodies_from.last() && match conds.last() {
            Err(_) => r == conds.last(),
            Ok(v) => !truthy(v@) && r is Ok && r->Ok_0 is Nil,
        }
    }
}

/// Each test of a loop's condition evaluates it.
pub open spec fn loop_tests<'a>(
    cond: ExprView,
    tests: Seq<Interpreter<'a>>,
    bodies_from: Seq<Interpreter<'a>>,
    conds: Seq<Result<Value, ControlFlow>>,
) -> bool
    decreases tests[0].budget() + 1, 27int,
{
    forall|k: int|
        0 <= k < conds.len() ==> tests[k].budget() <= tests[0].budget() && expression_step(
            tests[k],
            cond,
            bodies_from[k],
            #[trigger] conds[k],
        )
}

/// Each body run of a loop follows a test that held and runs the body; all
/// but the last complete.
pub open spec fn loop_bodies<'a>(
    body: StatementView,
    tests: Seq<Interpreter<'a>>,
    bodies_from: Seq<Interpreter<'a>>,
    conds: Seq<Result<Value, ControlFlow>>,
    bodies: Seq<Result<Value, ControlFlow>>,
    end: Interpreter<'a>,
) -> bool
    decreases tests[0].budget() + 1, 27int,
{
    forall|k: int|
        0 <= k < bodies.len() ==> conds[k] is Ok && truthy(conds[k]->Ok_0@) && bodies_from[k].budget()
            <= tests[0].budget() && statement_step(
            bodies_from[k],
            body,
            if k + 1 < conds.len() {
                tests[k + 1]
            } else {
                end
            },
            #[trigger] bodies[k],
        ) && (k + 1 < conds.len() ==> bodies[k] is Ok)
}

/// Whether a run ended early, at its last outcome.
pub open spec fn ended_early(outcomes: Seq<Result<Value, ControlFlow>>, returns_end: bool) -> bool {
    outcomes.len() > 0 && ends_run(outcomes.last(), returns_end)
}

/// Running statements in a scope: from a state seen as `start` with the
/// current scope `frame`, the statements run in order until one leaves
/// early, ending in a state seen as `end`; the result is that early exit, or
/// nil when every statement completed.
pub open spec fn block_runs<'a>(
    start: Interpreter<'a>,
    frame: int,
    stmts: Seq<StatementView>,
    end: Interpreter<'a>,
    r: Result<Value, ControlFlow>,
) -> bool
    decreases start.budget() + 1, 23int,
{
    exists|states: Seq<Interpreter<'a>>, outcomes: Seq<Result<Value, ControlFlow>>|
        #[trigger] run_frames(start, frame, end, states, outcomes) && runs(stmts, states, outcomes, true)
            && if ended_early(outcomes, true) {
            r == outcomes.last()
        } else {
            r is Ok && r->Ok_0 is Nil
        }
}

/// What a call's new scope binds before its body runs: each parameter to
/// the argument at its position, as far as both go.
pub open spec fn call_bindings(params: Seq<Seq<char>>, arguments: Seq<ValueView>) -> Map<Seq<char>, ValueView> {
    let n = if params.len() <= arguments.len() {
        params.len()
    } else {
        arguments.len()
    };
    bindings_of(params.take(n as int), arguments.take(n as int))
}

/// The result of a call of `f` that finds `this` bound (or not) from its
/// closure, for an initializer.
pub open spec fn this_result<'a>(after: Interpreter<'a>, f: FunctionView, r: Result<Value, ControlFlow>) -> bool {
    match after.scopes().resolve(f.closure as int, "this"@) {
        Some(v) => r is Ok && r->Ok_0@ == v,
        None => r is Err && r->Err_0@ == ControlFlowView::RuntimeError(undefined_error("this"@, 0)),
    }
}

/// A call's result from how its body ended: a runtime error is passed on;
/// a `return` gives its value and normal completion gives nil, except that
/// an initializer gives the instance its closure binds to `this`. A
/// `return` never leaves the call.
pub open spec fn call_result<'a>(
    after: Interpreter<'a>,
    f: FunctionView,
    body_r: Result<Value, ControlFlow>,
    r: Result<Value, ControlFlow>,
) -> bool {
    match body_r {
        Err(ControlFlow::RuntimeError(e)) => r == Err::<Value, ControlFlow>(ControlFlow::RuntimeError(e)),
        Err(ControlFlow::Return(v)) => if f.is_initializer {
            this_result(after, f, r)
        } else {
            r == Ok::<Value, ControlFlow>(v)
        },
        Ok(_) => if f.is_initializer {
            this_result(after, f, r)
        } else {
            r is Ok && r->Ok_0 is Nil
        },
    }
}

/// A call of `f` with argument values `args`: a new scope inside its
/// closure binds the parameters to the arguments, the body runs there, and
/// the result comes from how the body ended; every scope that existed keeps
/// the names it binds.
pub open spec fn call_outcome<'a>(
    before: Interpreter<'a>,
    after: Interpreter<'a>,
    f: FunctionView,
    args: Seq<ValueView>,
    r: Result<Value, ControlFlow>,
) -> bool
    decreases before.budget() + 1, 24int,
{
    &&& before.advanced(&after)
    &&& names_kept(before, after)
    &&& after.scopes().count() > before.scopes().count()
    &&& after.scopes().parent(before.scopes().count() as int) == Some(f.closure)
    &&& f.is_initializer && r is Ok ==> after.scopes().resolve(f.closure as int, "this"@) == Some(r->Ok_0@)
    &&& exists|entry: Interpreter<'a>, ended: Interpreter<'a>, body_r: Result<Value, ControlFlow>|
        #[trigger] call_entry(before, entry, f, args) && #[trigger] call_exit(after, ended, f, body_r, r) && block_runs(
            entry,
            before.scopes().count() as int,
            f.body,
            ended,
            body_r,
        )
}

/// The scope a call's body runs in: a new scope inside the function's
/// closure that binds the parameters to the arguments, everything else as
/// it was.
pub open spec fn call_entry<'a>(before: Interpreter<'a>, entry: Interpreter<'a>, f: FunctionView, args: Seq<ValueView>) -> bool {
    &&& entry.budget() == before.budget()
    &&& entry.scopes().count() == before.scopes().count() + 1
    &&& entry.scopes().scope(before.scopes().count() as int) == call_bindings(f.params, args)
    &&& entry.scopes().parent(before.scopes().count() as int) == Some(f.closure)
    &&& forall|j: int| 0 <= j < before.scopes().count() ==> entry.scopes().scope(j) == before.scopes().scope(j)
    &&& entry.printed() == before.printed()
}

/// How a call ends once its body ended in `ended` with outcome `body_r`:
/// in that state, with the result `call_result` gives.
pub open spec fn call_exit<'a>(
    after: Interpreter<'a>,
    ended: Interpreter<'a>,
    f: FunctionView,
    body_r: Result<Value, ControlFlow>,
    r: Result<Value, ControlFlow>,
) -> bool {
    &&& after.scopes() == ended.scopes()
    &&& after.budget() == ended.budget()
    &&& after.printed() == ended.printed()
    &&& call_result(after, f, body_r, r)
}

/// A call runs in a new scope inside the function's closure, leaves every
/// scope that existed before it (the closure's among them) binding the
/// names it bound, and comes back to the caller's scope.
pub proof fn lemma_call_scope<'a>(
    before: Interpreter<'a>,
    after: Interpreter<'a>,
    f: FunctionView,
    args: Seq<ValueView>,
    r: Result<Value, ControlFlow>,
)
    requires
        call_outcome(before, after, f, args, r),
    ensures
        after.current() == before.current(),
        after.scopes().parent(before.scopes().count() as int) == Some(f.closure),
        f.closure < before.scopes().count() ==> after.scopes().scope(f.closure as int).dom() == before.scopes().scope(
            f.closure as int,
        ).dom(),
        forall|i: int|
            0 <= i < before.scopes().count() ==> #[trigger] after.scopes().scope(i).dom() == before.scopes().scope(
                i,
            ).dom(),
{
    before.lemma_advanced(&after);
}

/// A call of class `class` with argument values `args`: a new instance of
/// the class is made; if the class has an `init` method, it is bound to the
/// instance (a new scope inside its closure binds `this`) and called with
/// the arguments, and its runtime error is passed on; the result is the new
/// instance.
pub open spec fn instantiated<'a>(
    before: Interpreter<'a>,
    after: Interpreter<'a>,
    class: int,
    args: Seq<ValueView>,
    r: Result<Value, ControlFlow>,
) -> bool
    decreases before.budget() + 1, 25int,
{
    let index = before.instance_classes().len();
    &&& before.advanced(&after)
    &&& r is Ok ==> r->Ok_0@ == ValueView::Instance(index as usize)
    &&& match before.class_init(class) {
        None => r is Ok && after.instance_classes() == before.instance_classes().push(class as usize)
            && after.instance_fields(index as int) == Map::<Seq<char>, ValueView>::empty() && after.scopes()
            == before.scopes() && after.printed() == before.printed() && after.budget() == before.budget(),
        Some(init) => exists|bound: Interpreter<'a>, called: Result<Value, ControlFlow>|
            #[trigger] init_bound(before, bound, class, init) && #[trigger] init_ended(called, r) && call_outcome(
                bound,
                after,
                FunctionView { closure: before.scopes().count() as usize, ..init },
                args,
                called,
            ),
    }
}

/// The state an initializer is called from: the new instance of `class`
/// is added, and a new scope inside the initializer's closure binds `this`
/// to it; everything else as it was.
pub open spec fn init_bound<'a>(before: Interpreter<'a>, bound: Interpreter<'a>, class: int, init: FunctionView) -> bool {
    let index = before.instance_classes().len();
    &&& bound.budget() == before.budget()
    &&& bound.instance_classes() == before.instance_classes().push(class as usize)
    &&& bound.scopes().count() == before.scopes().count() + 1
    &&& bound.scopes().scope(before.scopes().count() as int) == Map::<Seq<char>, ValueView>::empty().insert(
        "this"@,
        ValueView::Instance(index as usize),
    )
    &&& bound.scopes().parent(before.scopes().count() as int) == Some(init.closure)
    &&& forall|j: int| 0 <= j < before.scopes().count() ==> bound.scopes().scope(j) == before.scopes().scope(j)
    &&& bound.printed() == before.printed()
}

/// An instantiation's outcome from its initializer's: a runtime error is
/// passed on, else it succeeds.
pub open spec fn init_ended(called: Result<Value, ControlFlow>, r: Result<Value, ControlFlow>) -> bool {
    match called {
        Ok(_) => r is Ok,
        Err(e) => r == Err::<Value, ControlFlow>(e),
    }
}

/// The error of calling an index that names no function or class.
pub open spec fn not_callable() -> ControlFlowView {
    ControlFlowView::RuntimeError(RuntimeErrorView { line: 0, message: "Can only call functions and classes."@ })
}

/// A call of a callable with argument values: the clock gives a number (or
/// the error of a system clock set before the epoch) and changes nothing; a
/// function or class index gives what calling the function or class does;
/// an index that names none is an error and changes nothing.
pub open spec fn called<'a>(
    before: Interpreter<'a>,
    after: Interpreter<'a>,
    callee: Callable,
    args: Seq<ValueView>,
    r: Result<Value, ControlFlow>,
) -> bool
    decreases before.budget() + 1, 26int,
{
    &&& before.advanced(&after)
    &&& match callee {
        Callable::Clock => after == before && (r is Ok ==> r->Ok_0 is Float) && (r is Err ==> r->Err_0@
            == ControlFlowView::RuntimeError(RuntimeErrorView { line: 0, message: "Time went backwards"@ })),
        Callable::Function(i) => if i < before.function_views().len() {
            call_outcome(before, after, before.function_views()[i as int], args, r)
        } else {
            r is Err && r->Err_0@ == not_callable() && after == before
        },
        Callable::Class(i) => if i < before.class_names().len() {
            instantiated(before, after, i as int, args, r)
        } else {
            r is Err && r->Err_0@ == not_callable() && after == before
        },
    }
}

/// The number of arguments a callable takes in a state, if it names a
/// function or class there.
pub open spec fn callable_arity<'a>(s: Interpreter<'a>, c: Callable) -> Option<usize> {
    match c {
        Callable::Clock => Some(0usize),
        Callable::Function(i) => if i < s.function_views().len() {
            Some(s.function_views()[i as int].params.len() as usize)
        } else {
            None
        },
        Callable::Class(i) => if i < s.class_names().len() {
            Some(s.class_arity(i as int) as usize)
        } else {
            None
        },
    }
}

/// The views of values.
pub open spec fn value_views(vs: Seq<Value>) -> Seq<ValueView> {
    vs.map_values(|v: Value| v@)
}

/// The values of evaluation outcomes that are values.
pub open spec fn outcome_values(os: Seq<Result<Value, ControlFlow>>) -> Seq<ValueView> {
    os.map_values(|o: Result<Value, ControlFlow>| o->Ok_0@)
}

/// Expressions evaluated in order: expression `j` takes
/// `states[j]` to `states[j + 1]` with outcome `outcomes[j]`; every outcome
/// but the last is a value, and the evaluation stops early only at an error.
pub open spec fn arguments_run<'a>(
    args: Seq<ExprView>,
    states: Seq<Interpreter<'a>>,
    outcomes: Seq<Result<Value, ControlFlow>>,
) -> bool
    decreases states[0].budget() + 1, 27int,
{
    &&& states.len() == outcomes.len() + 1
    &&& outcomes.len() <= args.len()
    &&& forall|j: int|
        0 <= j < outcomes.len() ==> states[j].budget() <= states[0].budget() && expression_step(
            states[j],
            args[j],
            states[j + 1],
            #[trigger] outcomes[j],
        )
    &&& forall|j: int| 0 <= j < outcomes.len() - 1 ==> (#[trigger] outcomes[j]) is Ok
    &&& outcomes.len() < args.len() ==> outcomes.len() > 0 && outcomes.last() is Err
}

/// What a call does once its arguments were evaluated from state `s`: the
/// error an argument raised; else the error of a callee that names nothing
/// or takes another number of arguments (at the closing parenthesis); else
/// the callee called with the argument values.
pub open spec fn call_after_arguments<'a>(
    s: Interpreter<'a>,
    callee: Callable,
    outcomes: Seq<Result<Value, ControlFlow>>,
    count: nat,
    paren: TokenView,
    after: Interpreter<'a>,
    r: Result<Value, ControlFlow>,
) -> bool
    decreases s.budget() + 1, 27int,
{
    if outcomes.len() > 0 && outcomes.last() is Err {
        r == outcomes.last() && after == s
    } else {
        match callable_arity(s, callee) {
            None => r is Err && r->Err_0@ == ControlFlowView::RuntimeError(
                error_at(paren, "Can only call functions and classes."@),
            ) && after == s,
            Some(k) => if k != count {
                r is Err && r->Err_0@ == ControlFlowView::RuntimeError(
                    error_at(paren, arity_message(k, count as usize)),
                ) && after == s
            } else {
                called(s, after, callee, outcome_values(outcomes), r)
            },
        }
    }
}

/// The method an instance without a field `name` finds in its class, if
/// its class exists and has one so named.
pub open spec fn property_method<'a>(s: Interpreter<'a>, instance: int, name: Seq<char>) -> Option<FunctionView> {
    let class = s.instance_classes()[instance];
    if class < s.class_names().len() {
        s.class_method(class as int, name)
    } else {
        None
    }
}

/// The error of a property that an instance neither has nor finds.
pub open spec fn undefined_property(name: TokenView) -> RuntimeErrorView {
    RuntimeErrorView { line: name.line, message: "Undefined property '"@ + name.lexeme + "'."@ }
}

/// Reading property `name` of instance `instance`: its field if it has one;
/// else its class's method bound to it (a new scope inside the method's
/// closure binds `this`), called at once if it is a getter; else the error
/// of an undefined property. An index that names no instance is an error.
pub open spec fn property_read<'a>(
    before: Interpreter<'a>,
    after: Interpreter<'a>,
    instance: usize,
    name: TokenView,
    r: Result<Value, ControlFlow>,
) -> bool
    decreases before.budget() + 1, 25int,
{
    &&& before.advanced(&after)
    &&& instance >= before.instance_classes().len() ==> r is Err && r->Err_0@ == ControlFlowView::RuntimeError(
        error_at(name, "Only instances have properties."@),
    )
    &&& instance < before.instance_classes().len() && before.instance_fields(instance as int).dom().contains(
        name.lexeme,
    ) ==> r is Ok && r->Ok_0@ == before.instance_fields(instance as int)[name.lexeme] && before.same_state(&after) && after.budget() == before.budget()
    &&& instance < before.instance_classes().len() && !before.instance_fields(instance as int).dom().contains(
        name.lexeme,
    ) ==> match property_method(before, instance as int, name.lexeme) {
        None => r is Err && r->Err_0@ == ControlFlowView::RuntimeError(undefined_property(name))
            && after == before,
        Some(m) => exists|bound_state: Interpreter<'a>|
            #[trigger] bound_state.scopes().count() == before.scopes().count() + 1 && bound_state.scopes().scope(
                before.scopes().count() as int,
            ) == Map::<Seq<char>, ValueView>::empty().insert("this"@, ValueView::Instance(instance))
                && bound_state.scopes().parent(before.scopes().count() as int) == Some(m.closure) && (forall|
                j: int,
            |
                0 <= j < before.scopes().count() ==> bound_state.scopes().scope(j) == before.scopes().scope(
                    j,
                )) && bound_state.budget() == before.budget()
                && bound_state.printed() == before.printed() && if m.is_getter {
                call_outcome(
                    bound_state,
                    after,
                    FunctionView { closure: before.scopes().count() as usize, ..m },
                    Seq::<ValueView>::empty(),
                    r,
                )
            } else {
                r is Ok && r->Ok_0@ == ValueView::Callable(Callable::Function(before.function_views().len() as usize))
                    && after.function_views() == before.function_views().push(
                    FunctionView { closure: before.scopes().count() as usize, ..m },
                ) && after.scopes() == bound_state.scopes() && after.printed() == before.printed()
            },
    }
}

/// Whether an evaluation's outcome is the one a pure value or error gives.
pub open spec fn matches_pure(r: Result<Value, ControlFlow>, p: Result<ValueView, RuntimeErrorView>) -> bool {
    match p {
        Ok(v) => r is Ok && r->Ok_0@ == v,
        Err(e) => r is Err && r->Err_0@ == ControlFlowView::RuntimeError(e),
    }
}

impl<'a> Interpreter<'a> {
    /// Every closure lies among the first `n` scopes.
    pub closed spec fn closures_within(&self, n: nat) -> bool {
        &&& forall|i: int| 0 <= i < self.functions@.len() ==> (#[trigger] self.functions@[i]).closure < n
        &&& forall|i: int, j: int|
            0 <= i < self.classes@.len() && 0 <= j < self.classes@[i].methods@.len() ==> (
            #[trigger] self.classes@[i].methods@[j]).closure < n
        &&& forall|i: int, j: int|
            0 <= i < self.classes@.len() && 0 <= j < self.classes@[i].static_methods@.len() ==> (
            #[trigger] self.classes@[i].static_methods@[j]).closure < n
    }

    /// The interpreter is well formed: its scopes are, the current scope is
    /// one of them, closures refer to existing scopes, and field tables are
    /// well formed.
    pub closed spec fn wf(&self) -> bool {
        &&& self.environments.wf()
        &&& self.globals == 0
        &&& self.environment < self.environments.count()
        &&& self.closures_within(self.environments.count())
        &&& forall|i: int| 0 <= i < self.classes@.len() ==> (#[trigger] self.classes@[i]).static_fields.wf()
        &&& forall|i: int| 0 <= i < self.instances@.len() ==> (#[trigger] self.instances@[i]).fields.wf()
    }

    /// The functions, by index.
    pub closed spec fn function_views(&self) -> Seq<FunctionView> {
        functions_view(self.functions@)
    }

    /// The number of arguments a call of class `i` takes: its `init`
    /// method's parameters, or none.
    pub closed spec fn class_arity(&self, i: int) -> nat {
        match last_named(functions_view(self.classes@[i].methods@), "init"@) {
            Some(k) => self.classes@[i].methods@[k]@.params.len(),
            None => 0,
        }
    }

    /// The `init` method of class `i` (the last one so named), if any.
    pub closed spec fn class_init(&self, i: int) -> Option<FunctionView> {
        match last_named(functions_view(self.classes@[i].methods@), "init"@) {
            Some(k) => Some(self.classes@[i].methods@[k]@),
            None => None,
        }
    }

    /// The method of class `i` named `name` (the last one so named), if any.
    pub closed spec fn class_method(&self, i: int, name: Seq<char>) -> Option<FunctionView> {
        match last_named(functions_view(self.classes@[i].methods@), name) {
            Some(k) => Some(self.classes@[i].methods@[k]@),
            None => None,
        }
    }

    /// The methods of class `i`, in declaration order.
    pub closed spec fn class_methods(&self, i: int) -> Seq<FunctionView> {
        functions_view(self.classes@[i].methods@)
    }

    /// The static methods of class `i`, in declaration order.
    pub closed spec fn class_static_methods(&self, i: int) -> Seq<FunctionView> {
        functions_view(self.classes@[i].static_methods@)
    }

    /// The names of the classes, by index.
    pub closed spec fn class_names(&self) -> Seq<Seq<char>> {
        self.classes@.map_values(|c: Class<'a>| c.name@)
    }

    /// The fields of instance `i`.
    pub closed spec fn instance_fields(&self, i: int) -> Map<Seq<char>, ValueView> {
        self.instances@[i].fields.bindings()
    }

    /// The class of each instance, by index.
    pub closed spec fn instance_classes(&self) -> Seq<usize> {
        self.instances@.map_values(|i: Instance| i.class)
    }

    /// The scopes.
    pub closed spec fn scopes(&self) -> Environments {
        self.environments
    }

    /// The current scope.
    pub closed spec fn current(&self) -> int {
        self.environment as int
    }

    /// The evaluation steps left.
    pub closed spec fn budget(&self) -> int {
        self.steps as int
    }

    /// What has been printed and not yet taken.
    pub closed spec fn printed(&self) -> Seq<PrintedView> {
        self.output@.map_values(|p: Printed| p@)
    }

    /// What every evaluation keeps: well-formedness, the current scope, the
    /// scopes made so far and the scope each of them lies in; the budget does
    /// not grow.
    pub closed spec fn advanced(&self, after: &Self) -> bool {
        &&& after.wf()
        &&& after.steps <= self.steps
        &&& self.environments.count() <= after.environments.count()
        &&& forall|i: int| 0 <= i < self.environments.count() ==> #[trigger] after.environments.parent(i)
            == self.environments.parent(i)
        &&& after.environment == self.environment
        &&& self.functions@.len() <= after.functions@.len()
    }

    /// Everything but the budget is as it was.
    pub closed spec fn same_state(&self, after: &Self) -> bool {
        &&& after.environments == self.environments
        &&& after.globals == self.globals
        &&& after.environment == self.environment
        &&& after.functions@ == self.functions@
        &&& after.classes@ == self.classes@
        &&& after.instances@ == self.instances@
        &&& after.output@ == self.output@
    }

    /// What an evaluation keeps, spelled out: the interpreter stays well
    /// formed, the budget does not grow, the current scope stays, and the
    /// scopes made so far stay inside the scopes they were made in.
    pub proof fn lemma_advanced(&self, after: &Self)
        requires
            self.advanced(after),
        ensures
            after.wf(),
            after.budget() <= self.budget(),
            after.current() == self.current(),
            self.scopes().count() <= after.scopes().count(),
            forall|i: int| 0 <= i < self.scopes().count() ==> #[trigger] after.scopes().parent(i) == self.scopes().parent(i),
    {
    }

    proof fn lemma_closures_grow(&self, n: nat, m: nat)
        requires
            self.closures_within(n),
            n <= m,
        ensures
            self.closures_within(m),
    {
    }

    /// A fresh interpreter: the global scope binds `clock` to the native
    /// clock, nothing has been printed.
    pub fn new() -> (r: Self)
        ensures
            r.wf(),
            r.current() == 0,
            r.scopes().count() == 1,
            r.scopes().scope(0) == Map::<Seq<char>, ValueView>::empty().insert(
                "clock"@,
                ValueView::Callable(Callable::Clock),
            ),
            r.printed() == Seq::<PrintedView>::empty(),
            r.budget() == u64::MAX,
    {
        let mut environments = Environments::new();
        environments.define(0, String::from_str("clock"), Value::Callable(Callable::Clock));
        let r = Interpreter {
            environments,
            globals: 0,
            environment: 0,
            functions: Vec::new(),
            classes: Vec::new(),
            instances: Vec::new(),
            output: Vec::new(),
            steps: u64::MAX,
        };
        assert(r.printed() =~= Seq::<PrintedView>::empty());
        r
    }

    /// The index of the global scope.
    pub fn globals(&self) -> (r: usize)
        requires
            self.wf(),
        ensures
            r == 0,
    {
        self.globals
    }

    /// The index of the current scope.
    pub fn environment(&self) -> (r: usize)
        ensures
            r == self.current(),
    {
        self.environment
    }

    /// Binds `name` to `value` in the current scope.
    pub fn define(&mut self, name: String, value: Value)
        requires
            old(self).wf(),
        ensures
            old(self).advanced(final(self)),
            final(self).scopes().count() == old(self).scopes().count(),
            final(self).scopes().scope(old(self).current()) == old(self).scopes().scope(old(self).current()).insert(
                name@,
                value@,
            ),
            final(self).budget() == old(self).budget(),
    {
        self.environments.define(self.environment, name, value);
    }

    /// Takes what has been printed so far, leaving nothing.
    pub fn take_output(&mut self) -> (r: Vec<Printed>)
        requires
            old(self).wf(),
        ensures
            old(self).advanced(final(self)),
            r@.map_values(|p: Printed| p@) == old(self).printed(),
            final(self).printed() == Seq::<PrintedView>::empty(),
    {
        let mut out: Vec<Printed> = Vec::new();
        std::mem::swap(&mut out, &mut self.output);
        assert(self.printed() =~= Seq::<PrintedView>::empty());
        out
    }

    /// Spends one evaluation step.
    fn step(&mut self) -> (r: Result<(), ControlFlow>)
        requires
            old(self).wf(),
        ensures
            old(self).advanced(final(self)),
            final(self).functions@ == old(self).functions@,
            final(self).printed() == old(self).printed(),
            final(self).environments == old(self).scopes(),
            old(self).same_state(final(self)),
            old(self).budget() > 0 ==> r is Ok && final(self).budget() == old(self).budget() - 1,
            old(self).budget() == 0 ==> r is Err && r->Err_0@ == exhausted(),
    {
        if self.steps == 0 {
            Err(ControlFlow::RuntimeError(RuntimeError::new(0, String::from_str("Evaluation step limit reached."))))
        } else {
            self.steps = self.steps - 1;
            Ok(())
        }
    }

    /// The value of a variable (or `this`) expression.
    fn lookup_variable(&self, name: &Token, depth: Depth) -> (r: Result<Value, ControlFlow>)
        requires
            self.wf(),
        ensures
            match lookup_result(self.environments, self.environment as int, name@, depth) {
                Ok(v) => r is Ok && r->Ok_0@ == v,
                Err(e) => r is Err && r->Err_0@ == ControlFlowView::RuntimeError(e),
            },
    {
        let found = match depth {
            Depth::Unresolved => self.environments.get(self.globals, &name.lexeme, name.line),
            Depth::Resolved(distance) => self.environments.get_at(self.environment, distance, &name.lexeme, name.line),
        };
        match found {
            Ok(v) => Ok(v),
            Err(e) => Err(ControlFlow::RuntimeError(e)),
        }
    }

    /// Records `depth` as where a variable or assignment expression finds
    /// its binding.
    pub fn resolve(&mut self, expression: &mut Expr, depth: usize)
        ensures
            match *old(expression) {
                Expr::Variable { name, .. } => *final(expression) == Expr::Variable {
                    name,
                    depth: Depth::Resolved(depth),
                },
                Expr::Assign { name, value, .. } => *final(expression) == Expr::Assign {
                    name,
                    value,
                    depth: Depth::Resolved(depth),
                },
                _ => *final(expression) == *old(expression),
            },
            *final(self) == *old(self),
    {
        match expression {
            Expr::Variable { depth: d, .. } => {
                *d = Depth::Resolved(depth);
            },
            Expr::Assign { depth: d, .. } => {
                *d = Depth::Resolved(depth);
            },
            _ => {},
        }
    }

    /// How a value prints.
    pub fn display(&self, v: &Value) -> (r: Printed)
        ensures
            r@ == displayed(*self, v@),
            match v@ {
                ValueView::Integer(i) => r@ == PrintedView::Text(decimal_text(i as int)),
                ValueView::Float(f) => r@ == PrintedView::Float(f),
                ValueView::Str(s) => r@ == PrintedView::Text(s),
                ValueView::Bool(b) => r@ == PrintedView::Text(if b { "true"@ } else { "false"@ }),
                ValueView::Nil => r@ == PrintedView::Text("nil"@),
                ValueView::Callable(Callable::Clock) => r@ == PrintedView::Text("<native fn clock>"@),
                ValueView::Callable(Callable::Function(i)) => i < self.function_views().len() ==> r@
                    == PrintedView::Text("<fn "@ + self.function_views()[i as int].name + ">"@),
                ValueView::Callable(Callable::Class(i)) => i < self.class_names().len() ==> r@ == PrintedView::Text(
                    "<class "@ + self.class_names()[i as int] + ">"@,
                ),
                ValueView::Instance(i) => (i < self.instance_classes().len() && self.instance_classes()[i as int]
                    < self.class_names().len()) ==> r@ == PrintedView::Text(
                    "<instance of "@ + self.class_names()[self.instance_classes()[i as int] as int] + ">"@,
                ),
            },
    {
        match v {
            Value::Integer(i) => Printed::Text(isize_to_decimal(*i)),
            Value::Float(f) => Printed::Float(*f),
            Value::Str(s) => Printed::Text(s.clone()),
            Value::Bool(b) => {
                if *b {
                    Printed::Text(String::from_str("true"))
                } else {
                    Printed::Text(String::from_str("false"))
                }
            },
            Value::Nil => Printed::Text(String::from_str("nil")),
            Value::Callable(Callable::Clock) => Printed::Text(Clock.to_string()),
            Value::Callable(Callable::Function(i)) => {
                if *i < self.functions.len() {
                    Printed::Text(self.functions[*i].to_string())
                } else {
                    Printed::Text(String::from_str("<fn>"))
                }
            },
            Value::Callable(Callable::Class(i)) => {
                if *i < self.classes.len() {
                    Printed::Text(self.classes[*i].to_string())
                } else {
                    Printed::Text(String::from_str("<class>"))
                }
            },
            Value::Instance(i) => {
                if *i < self.instances.len() && self.instances[*i].class < self.classes.len() {
                    let mut s = String::from_str("<instance of ");
                    append_str(&mut s, self.classes[self.instances[*i].class].name.as_str());
                    append_str(&mut s, ">");
                    Printed::Text(s)
                } else {
                    Printed::Text(String::from_str("<instance>"))
                }
            },
        }
    }
}


impl<'a> Interpreter<'a> {
    /// Evaluates an expression.
    pub fn visit_expression(&mut self, expr: &'a Expr) -> (r: Result<Value, ControlFlow>)
        requires
            old(self).wf(),
        ensures
            expression_step(*old(self), expr@, *final(self), r),
        decreases old(self).budget(), 0int,
    {
        match self.step() {
            Ok(()) => {},
            Err(e) => {
                return Err(e);
            },
        }
        let ghost mid = *self;
        let r = match expr {
            Expr::Assign { name, value, depth } => self.visit_assign(name, value, *depth),
            Expr::LogicOr { left, right } => self.visit_logical_or(left, right),
            Expr::LogicAnd { left, right } => self.visit_logical_and(left, right),
            Expr::Binary { left, operator, right } => self.visit_binary(left, operator, right),
            Expr::Literal { value } => self.visit_literal(value),
            Expr::Grouping { expression } => self.visit_grouping(expression),
            Expr::Unary { operator, right } => self.visit_unary(operator, right),
            Expr::Variable { name, depth } => self.visit_variable(name, *depth),
            Expr::Call { callee, paren, arguments } => self.visit_call(callee, paren, arguments),
            Expr::Get { object, name } => self.visit_get(object, name),
            Expr::SetProperty { object, name, value } => self.visit_set(object, name, value),
            Expr::This { keyword, depth } => self.visit_this(keyword, *depth),
            Expr::Lambda { params, body } => self.visit_lambda(params, body),
        };
        proof {
            assert(expression_effect(mid, expr@, *self, r));
            assert(stepped_from(*old(self), mid));
        }
        r
    }

    /// A literal's value.
    pub fn visit_literal(&mut self, value: &'a Token) -> (r: Result<Value, ControlFlow>)
        requires
            old(self).wf(),
        ensures
            names_kept(*old(self), *final(self)),
            *final(self) == *old(self),
            r is Ok && r->Ok_0@ == literal_value(value@),
    {
        Ok(literal(value))
    }

    /// The value of the inner expression.
    pub fn visit_grouping(&mut self, expression: &'a Expr) -> (r: Result<Value, ControlFlow>)
        requires
            old(self).wf(),
        ensures
            names_kept(*old(self), *final(self)),
            old(self).advanced(final(self)),
            pure_expr(expression@) && expr_size(expression@) <= old(self).budget() ==> matches_pure(
                r,
                pure_value(old(self).scopes(), old(self).current(), expression@),
            ) && old(self).same_state(final(self)) && final(self).budget() + expr_size(expression@) >= old(self).budget(),
            expression_step(*old(self), expression@, *final(self), r),
        decreases old(self).budget(), 1int,
    {
        self.visit_expression(expression)
    }

    /// A variable's value.
    pub fn visit_variable(&mut self, name: &'a Token, depth: Depth) -> (r: Result<Value, ControlFlow>)
        requires
            old(self).wf(),
        ensures
            names_kept(*old(self), *final(self)),
            *final(self) == *old(self),
            match lookup_result(old(self).scopes(), old(self).current(), name@, depth) {
                Ok(v) => r is Ok && r->Ok_0@ == v,
                Err(e) => r is Err && r->Err_0@ == ControlFlowView::RuntimeError(e),
            },
    {
        self.lookup_variable(name, depth)
    }

    /// The value `this` is bound to.
    pub fn visit_this(&mut self, keyword: &'a Token, depth: Depth) -> (r: Result<Value, ControlFlow>)
        requires
            old(self).wf(),
        ensures
            names_kept(*old(self), *final(self)),
            *final(self) == *old(self),
            match lookup_result(old(self).scopes(), old(self).current(), keyword@, depth) {
                Ok(v) => r is Ok && r->Ok_0@ == v,
                Err(e) => r is Err && r->Err_0@ == ControlFlowView::RuntimeError(e),
            },
    {
        self.lookup_variable(keyword, depth)
    }

    /// Evaluates both operands, left first, then applies the operator.
    pub fn visit_binary(&mut self, left: &'a Expr, operator: &'a Token, right: &'a Expr) -> (r: Result<Value, ControlFlow>)
        requires
            old(self).wf(),
        ensures
            names_kept(*old(self), *final(self)),
            old(self).advanced(final(self)),
            r is Ok ==> exists|a: ValueView, b: ValueView| #[trigger] binary_value(operator@, a, b) == Ok::<ValueView, RuntimeErrorView>(r->Ok_0@),
            pure_expr(left@) && pure_expr(right@) && expr_size(left@) + expr_size(right@) <= old(self).budget() ==> matches_pure(
                r,
                pure_value(
                    old(self).scopes(),
                    old(self).current(),
                    ExprView::Binary { left: Box::new(left@), operator: operator@, right: Box::new(right@) },
                ),
            ) && old(self).same_state(final(self)) && final(self).budget() + expr_size(left@) + expr_size(right@) >= old(self).budget(),
            operands_then(*old(self), left@, operator@, right@, *final(self), r),
        decreases old(self).budget(), 1int,
    {
        let left_result = self.visit_expression(left);
        let ghost mid = *self;
        let ghost ra = left_result;
        proof {
            assert(evaluation(*old(self), mid, ra));
        }
        let left_value = match left_result {
            Ok(v) => v,
            Err(e) => {
                return Err(e);
            },
        };
        let right_result = self.visit_expression(right);
        let ghost rb = right_result;
        proof {
            assert(evaluation(mid, *self, rb));
        }
        let right_value = match right_result {
            Ok(v) => v,
            Err(e) => {
                return Err(e);
            },
        };
        let ghost a = left_value@;
        let ghost b = right_value@;
        match binary_operation(operator, left_value, right_value) {
            Ok(v) => {
                assert(binary_value(operator@, a, b) == Ok::<ValueView, RuntimeErrorView>(v@));
                Ok(v)
            },
            Err(e) => Err(ControlFlow::RuntimeError(e)),
        }
    }

    /// Evaluates the operand, then applies the operator.
    pub fn visit_unary(&mut self, operator: &'a Token, right: &'a Expr) -> (r: Result<Value, ControlFlow>)
        requires
            old(self).wf(),
        ensures
            names_kept(*old(self), *final(self)),
            old(self).advanced(final(self)),
            r is Ok ==> exists|a: ValueView| #[trigger] unary_value(operator@, a) == Ok::<ValueView, RuntimeErrorView>(r->Ok_0@),
            pure_expr(right@) && expr_size(right@) <= old(self).budget() ==> matches_pure(
                r,
                pure_value(
                    old(self).scopes(),
                    old(self).current(),
                    ExprView::Unary { operator: operator@, right: Box::new(right@) },
                ),
            ) && old(self).same_state(final(self)) && final(self).budget() + expr_size(right@) >= old(self).budget(),
            unary_effect(*old(self), operator@, right@, *final(self), r),
        decreases old(self).budget(), 1int,
    {
        let right_result = self.visit_expression(right);
        proof {
            assert(evaluation(*old(self), *self, right_result));
        }
        let right_value = match right_result {
            Ok(v) => v,
            Err(e) => {
                return Err(e);
            },
        };
        let ghost a = right_value@;
        match unary_operation(operator, right_value) {
            Ok(v) => {
                assert(unary_value(operator@, a) == Ok::<ValueView, RuntimeErrorView>(v@));
                Ok(v)
            },
            Err(e) => Err(ControlFlow::RuntimeError(e)),
        }
    }

    /// Evaluates the value and rebinds the variable to it; the value is the
    /// result.
    pub fn visit_assign(&mut self, name: &'a Token, value: &'a Expr, depth: Depth) -> (r: Result<Value, ControlFlow>)
        requires
            old(self).wf(),
        ensures
            names_kept(*old(self), *final(self)),
            old(self).advanced(final(self)),
            r is Ok ==> lookup_result(final(self).scopes(), final(self).current(), name@, depth) == Ok::<
                ValueView,
                RuntimeErrorView,
            >(r->Ok_0@),
            pure_expr(value@) && expr_size(value@) <= old(self).budget() ==> final(self).printed() == old(self).printed()
                && match pure_value(old(self).scopes(), old(self).current(), value@) {
                Err(e) => r is Err && r->Err_0@ == ControlFlowView::RuntimeError(e) && final(self).scopes() == old(
                    self,
                ).scopes(),
                Ok(v) => assigned(old(self).scopes(), final(self).scopes(), old(self).current(), name@, depth, v, r),
            },
            assign_effect(*old(self), name@, value@, depth, *final(self), r),
        decreases old(self).budget(), 2int,
    {
        self.assign_variable(name, value, depth)
    }

    /// Evaluates `value_expr` and assigns it to the variable `name`: a
    /// global if unresolved, else from the scope `depth` steps out.
    fn assign_variable(&mut self, name: &'a Token, value_expr: &'a Expr, depth: Depth) -> (r: Result<Value, ControlFlow>)
        requires
            old(self).wf(),
        ensures
            names_kept(*old(self), *final(self)),
            old(self).advanced(final(self)),
            r is Ok ==> lookup_result(final(self).scopes(), final(self).current(), name@, depth) == Ok::<
                ValueView,
                RuntimeErrorView,
            >(r->Ok_0@),
            pure_expr(value_expr@) && expr_size(value_expr@) <= old(self).budget() ==> final(self).printed() == old(
                self,
            ).printed() && match pure_value(old(self).scopes(), old(self).current(), value_expr@) {
                Err(e) => r is Err && r->Err_0@ == ControlFlowView::RuntimeError(e) && final(self).scopes() == old(
                    self,
                ).scopes(),
                Ok(v) => assigned(old(self).scopes(), final(self).scopes(), old(self).current(), name@, depth, v, r),
            },
            assign_effect(*old(self), name@, value_expr@, depth, *final(self), r),
        decreases old(self).budget(), 1int,
    {
        let value_result = self.visit_expression(value_expr);
        let ghost evaluated = *self;
        proof {
            assert(evaluation(*old(self), evaluated, value_result));
        }
        let evaluated_value = match value_result {
            Ok(v) => v,
            Err(e) => {
                return Err(e);
            },
        };
        let stored = evaluated_value.copy();
        let ghost mid = self.environments;
        let assigned = match depth {
            Depth::Unresolved => self.environments.assign(self.globals, &name.lexeme, stored, name.line),
            Depth::Resolved(distance) => self.environments.assign_at(
                self.environment,
                distance,
                &name.lexeme,
                stored,
                name.line,
            ),
        };
        proof {
            if assigned is Ok {
                let a = match depth {
                    Depth::Unresolved => 0int,
                    Depth::Resolved(d) => {
                        lemma_ancestor_kept(mid, self.environments, self.environment as int, d as nat);
                        mid.ancestor(self.environment as int, d as nat)->Some_0
                    },
                };
                lemma_get_after_assign(mid, self.environments, a, name.lexeme@, evaluated_value@);
            }
            assert forall|i: int| 0 <= i < evaluated.scopes().count() implies #[trigger] self.scopes().scope(i).dom()
                == evaluated.scopes().scope(i).dom() by {
                assert(self.environments.scope(i).dom() == mid.scope(i).dom());
            }
            lemma_names_chain(*old(self), evaluated, *self);
        }
        match assigned {
            Ok(()) => Ok(evaluated_value),
            Err(e) => Err(ControlFlow::RuntimeError(e)),
        }
    }

    /// `left or right`: the left value if it is true, else the right value.
    pub fn visit_logical_or(&mut self, left: &'a Expr, right: &'a Expr) -> (r: Result<Value, ControlFlow>)
        requires
            old(self).wf(),
        ensures
            names_kept(*old(self), *final(self)),
            old(self).advanced(final(self)),
            pure_expr(left@) && pure_expr(right@) && expr_size(left@) + expr_size(right@) <= old(self).budget() ==> matches_pure(
                r,
                pure_value(
                    old(self).scopes(),
                    old(self).current(),
                    ExprView::LogicOr { left: Box::new(left@), right: Box::new(right@) },
                ),
            ) && old(self).same_state(final(self)) && final(self).budget() + expr_size(left@) + expr_size(right@) >= old(self).budget(),
            short_circuit(*old(self), left@, right@, *final(self), r, true),
        decreases old(self).budget(), 1int,
    {
        let left_result = self.visit_expression(left);
        proof {
            assert(evaluation(*old(self), *self, left_result));
        }
        let left_value = match left_result {
            Ok(v) => v,
            Err(e) => {
                return Err(e);
            },
        };
        if is_truthy(&left_value) {
            Ok(left_value)
        } else {
            self.visit_expression(right)
        }
    }

    /// `left and right`: the left value if it is false, else the right value.
    pub fn visit_logical_and(&mut self, left: &'a Expr, right: &'a Expr) -> (r: Result<Value, ControlFlow>)
        requires
            old(self).wf(),
        ensures
            names_kept(*old(self), *final(self)),
            old(self).advanced(final(self)),
            pure_expr(left@) && pure_expr(right@) && expr_size(left@) + expr_size(right@) <= old(self).budget() ==> matches_pure(
                r,
                pure_value(
                    old(self).scopes(),
                    old(self).current(),
                    ExprView::LogicAnd { left: Box::new(left@), right: Box::new(right@) },
                ),
            ) && old(self).same_state(final(self)) && final(self).budget() + expr_size(left@) + expr_size(right@) >= old(self).budget(),
            short_circuit(*old(self), left@, right@, *final(self), r, false),
        decreases old(self).budget(), 1int,
    {
        let left_result = self.visit_expression(left);
        proof {
            assert(evaluation(*old(self), *self, left_result));
        }
        let left_value = match left_result {
            Ok(v) => v,
            Err(e) => {
                return Err(e);
            },
        };
        if !is_truthy(&left_value) {
            Ok(left_value)
        } else {
            self.visit_expression(right)
        }
    }
}


impl<'a> Interpreter<'a> {
    /// Evaluates the callee, then the arguments in order, checks the number
    /// of arguments against the callee's arity, and calls it.
    pub fn visit_call(&mut self, callee: &'a Expr, paren: &'a Token, arguments: &'a Vec<Expr>) -> (r: Result<Value, ControlFlow>)
        requires
            old(self).wf(),
        ensures
            names_kept(*old(self), *final(self)),
            old(self).advanced(final(self)),
            pure_expr(callee@) && expr_size(callee@) <= old(self).budget() ==> match pure_value(
                old(self).scopes(),
                old(self).current(),
                callee@,
            ) {
                Err(e) => r is Err && r->Err_0@ == ControlFlowView::RuntimeError(e),
                Ok(ValueView::Callable(_)) => true,
                Ok(_) => r is Err && r->Err_0@ == ControlFlowView::RuntimeError(
                    error_at(paren@, "Can only call functions and classes."@),
                ),
            },
            call_effect(*old(self), callee@, paren@, exprs_view(arguments@), *final(self), r),
        decreases old(self).budget(), 7int,
    {
        let callee_result = self.visit_expression(callee);
        let ghost mid = *self;
        proof {
            assert(evaluation(*old(self), mid, callee_result));
            lemma_exprs_view_index(arguments@);
        }
        let callee_value = match callee_result {
            Ok(v) => v,
            Err(e) => {
                return Err(e);
            },
        };
        let callable = match callee_value {
            Value::Callable(c) => c,
            _ => {
                return Err(ControlFlow::RuntimeError(error(paren, "Can only call functions and classes.")));
            },
        };
        let evaluated = self.evaluate_arguments(arguments);
        let ghost s_args = *self;
        let ghost picked = choose|states: Seq<Interpreter<'a>>, outcomes: Seq<Result<Value, ControlFlow>>|
                #[trigger] argument_frames(mid, states, outcomes) && arguments_run(exprs_view(arguments@), states, outcomes)
                    && states.last() == s_args && match evaluated {
                    Err(e) => outcomes.len() > 0 && outcomes.last() == Err::<Value, ControlFlow>(e),
                    Ok(values) => !(outcomes.len() > 0 && outcomes.last() is Err) && value_views(values@)
                        == outcome_values(outcomes),
                };
        let ghost states = picked.0;
        let ghost outcomes = picked.1;
        proof {
            assert(argument_frames(mid, states, outcomes));
            assert(arguments_run(exprs_view(arguments@), states, outcomes));
            if evaluated is Ok {
                assert(value_views(evaluated->Ok_0@).len() == evaluated->Ok_0@.len());
                assert(outcome_values(outcomes).len() == outcomes.len());
            }
        }
        let values = match evaluated {
            Ok(values) => values,
            Err(e) => {
                return Err(e);
            },
        };
        let arity = match self.arity(callable) {
            Some(n) => n,
            None => {
                return Err(ControlFlow::RuntimeError(error(paren, "Can only call functions and classes.")));
            },
        };
        match check_arity(arity, values.len(), paren) {
            Ok(()) => {},
            Err(e) => {
                return Err(ControlFlow::RuntimeError(e));
            },
        }
        let ghost vals = values@;
        let ghost before_call = *self;
        let r = self.call(callable, values);
        proof {
            assert(states.last() == before_call);
            assert(!(outcomes.len() > 0 && outcomes.last() is Err));
            assert(outcomes.len() == arguments@.len());
            assert(callable_arity(before_call, callable) == Some(arity));
            assert(value_views(vals) == outcome_values(outcomes));
            assert(called(before_call, *self, callable, outcome_values(outcomes), r));
            assert(call_after_arguments(states.last(), callable, outcomes, arguments@.len(), paren@, *self, r));
            assert(states.last().budget() <= old(self).budget());
        }
        r
    }

    /// Evaluates argument expressions in order, stopping at the first error.
    fn evaluate_arguments(&mut self, arguments: &'a Vec<Expr>) -> (r: Result<Vec<Value>, ControlFlow>)
        requires
            old(self).wf(),
        ensures
            names_kept(*old(self), *final(self)),
            old(self).advanced(final(self)),
            exists|states: Seq<Interpreter<'a>>, outcomes: Seq<Result<Value, ControlFlow>>|
                #[trigger] argument_frames(*old(self), states, outcomes) && arguments_run(exprs_view(arguments@), states, outcomes)
                    && states.last() == *final(self) && match r {
                    Err(e) => outcomes.len() > 0 && outcomes.last() == Err::<Value, ControlFlow>(e),
                    Ok(values) => !(outcomes.len() > 0 && outcomes.last() is Err) && value_views(values@)
                        == outcome_values(outcomes),
                },
        decreases old(self).budget(), 1int,
    {
        let mut values: Vec<Value> = Vec::new();
        let ghost args = exprs_view(arguments@);
        proof {
            lemma_exprs_view_index(arguments@);
        }
        let ghost mut states: Seq<Interpreter<'a>> = seq![*self];
        let ghost mut outcomes: Seq<Result<Value, ControlFlow>> = Seq::empty();
        let mut i: usize = 0;
        while i < arguments.len()
            invariant
                old(self).advanced(self),
                i <= arguments@.len(),
                args == exprs_view(arguments@),
                args.len() == arguments@.len(),
                forall|j: int| 0 <= j < args.len() ==> #[trigger] args[j] == arguments@[j]@,
                forall|j: int| 0 <= j <= i ==> (#[trigger] states[j]).budget() <= states[0].budget(),
                states.len() == i + 1,
                outcomes.len() == i,
                states[0] == *old(self),
                states.last() == *self,
                forall|j: int|
                    0 <= j < i ==> states[j].budget() <= states[0].budget() && expression_step(
                        states[j],
                        args[j],
                        states[j + 1],
                        #[trigger] outcomes[j],
                    ),
                forall|j: int| 0 <= j < i ==> (#[trigger] outcomes[j]) is Ok,
                value_views(values@) == outcome_values(outcomes),
                names_kept(*old(self), *self),
            decreases arguments@.len() - i,
        {
            let ghost vals_before = values@;
            let ghost outs_before = outcomes;
            let ghost prev = *self;
            let result = self.visit_expression(&arguments[i]);
            let ghost o = result;
            proof {
                lemma_names_chain(*old(self), prev, *self);
            }
            proof {
                states = states.push(*self);
                outcomes = outcomes.push(o);
            }
            let v = match result {
                Ok(v) => v,
                Err(e) => {
                    proof {
                        assert(arguments_run(args, states, outcomes));
                        assert(argument_frames(*old(self), states, outcomes));
                    }
                    return Err(e);
                },
            };
            values.push(v);
            proof {
                assert(values@ == vals_before.push(v));
                assert(o == Ok::<Value, ControlFlow>(v));
                assert(value_views(vals_before).len() == vals_before.len());
                assert(outcome_values(outs_before).len() == outs_before.len());
                assert(value_views(values@).len() == values@.len());
                assert(outcome_values(outcomes).len() == outcomes.len());
                assert forall|j: int| 0 <= j < values@.len() implies #[trigger] value_views(values@)[j]
                    == outcome_values(outcomes)[j] by {
                    assert(value_views(values@)[j] == values@[j]@);
                    assert(outcome_values(outcomes)[j] == outcomes[j]->Ok_0@);
                    if j < i {
                        assert(value_views(vals_before)[j] == outcome_values(outs_before)[j]);
                        assert(value_views(vals_before)[j] == vals_before[j]@);
                        assert(outcome_values(outs_before)[j] == outs_before[j]->Ok_0@);
                    }
                }
                assert(value_views(values@) =~= outcome_values(outcomes));
            }
            i = i + 1;
        }
        proof {
            assert(arguments_run(args, states, outcomes));
            assert(argument_frames(*old(self), states, outcomes));
        }
        Ok(values)
    }

    /// The number of arguments a callable takes; nothing for an index that
    /// names no function or class.
    pub fn arity(&self, callee: Callable) -> (r: Option<usize>)
        ensures
            match callee {
                Callable::Clock => r == Some(0usize),
                Callable::Function(i) => if i < self.function_views().len() {
                    r == Some(self.function_views()[i as int].params.len() as usize)
                } else {
                    r is None
                },
                Callable::Class(i) => if i < self.class_names().len() {
                    r == Some(self.class_arity(i as int) as usize)
                } else {
                    r is None
                },
            },
    {
        match callee {
            Callable::Clock => Some(0),
            Callable::Function(i) => {
                if i < self.functions.len() {
                    Some(self.functions[i].arity())
                } else {
                    None
                }
            },
            Callable::Class(i) => {
                if i < self.classes.len() {
                    Some(self.classes[i].arity())
                } else {
                    None
                }
            },
        }
    }

    /// Calls a callable with argument values.
    pub fn call(&mut self, callee: Callable, arguments: Vec<Value>) -> (r: Result<Value, ControlFlow>)
        requires
            old(self).wf(),
        ensures
            names_kept(*old(self), *final(self)),
            old(self).advanced(final(self)),
            called(*old(self), *final(self), callee, value_views(arguments@), r),
        decreases old(self).budget(), 6int,
    {
        match callee {
            Callable::Clock => {
                Clock.call()
            },
            Callable::Function(i) => {
                if i >= self.functions.len() {
                    return Err(ControlFlow::RuntimeError(RuntimeError::new(0, String::from_str("Can only call functions and classes."))));
                }
                let f = self.functions[i].copy();
                self.call_function(&f, arguments)
            },
            Callable::Class(i) => {
                if i >= self.classes.len() {
                    return Err(ControlFlow::RuntimeError(RuntimeError::new(0, String::from_str("Can only call functions and classes."))));
                }
                self.instantiate(i, arguments)
            },
        }
    }

    /// Calls a function: binds its parameters to the arguments in a new
    /// scope inside its closure and runs its body there. The result is the
    /// value returned (nil without a `return`), or, for an initializer, the
    /// instance its closure binds to `this`.
    pub fn call_function(&mut self, function: &Function<'a>, arguments: Vec<Value>) -> (r: Result<Value, ControlFlow>)
        requires
            old(self).wf(),
            function.closure < old(self).scopes().count(),
        ensures
            names_kept(*old(self), *final(self)),
            old(self).advanced(final(self)),
            call_outcome(*old(self), *final(self), function@, value_views(arguments@), r),
            function.body@.len() > 0 && old(self).budget() == 0 ==> r is Err && r->Err_0@ == exhausted(),
            function.body@.len() == 0 ==> final(self).budget() == old(self).budget() && final(self).printed() == old(
                self,
            ).printed() && final(self).scopes().count() == old(self).scopes().count() + 1 && final(self).scopes().scope(
                old(self).scopes().count() as int,
            ) == call_bindings(function@.params, value_views(arguments@)) && (forall|j: int|
                0 <= j < old(self).scopes().count() ==> final(self).scopes().scope(j) == old(self).scopes().scope(j))
                && if function.is_initializer {
                match final(self).scopes().resolve(function.closure as int, "this"@) {
                    Some(v) => r is Ok && r->Ok_0@ == v,
                    None => r is Err && r->Err_0@ == ControlFlowView::RuntimeError(undefined_error("this"@, 0)),
                }
            } else {
                r is Ok && r->Ok_0@ == ValueView::Nil
            },
        decreases old(self).budget(), 4int,
    {
        let environment = self.environments.new_scope(function.closure);
        proof {
            self.lemma_closures_grow((self.environments.count() - 1) as nat, self.environments.count());
        }
        let ghost params = function@.params;
        let ghost values = value_views(arguments@);
        let mut i: usize = 0;
        while i < function.params.len() && i < arguments.len()
            invariant
                old(self).advanced(self),
                self.steps == old(self).budget(),
                environment == old(self).scopes().count(),
                self.environments.count() == old(self).scopes().count() + 1,
                function.closure < self.environments.count(),
                self.environments.parent(environment as int) == Some(function.closure),
                forall|j: int| 0 <= j < old(self).scopes().count() ==> #[trigger] self.environments.scope(j) == old(
                    self,
                ).scopes().scope(j),
                self.environments.scope(environment as int) == bindings_of(
                    params.take(i as int),
                    values.take(i as int),
                ),
                self.output@ == old(self).output@,
                params == function@.params,
                values == value_views(arguments@),
                i <= function.params@.len(),
                i <= arguments@.len(),
            decreases function.params@.len() - i,
        {
            self.environments.define(environment, function.params[i].clone(), arguments[i].copy());
            proof {
                assert(params.take(i + 1).drop_last() =~= params.take(i as int));
                assert(values.take(i + 1).drop_last() =~= values.take(i as int));
                assert(params.take(i + 1).last() == function.params@[i as int]@);
                assert(values.take(i + 1).last() == arguments@[i as int]@);
            }
            i = i + 1;
        }
        proof {
            assert(self.environments.scope(environment as int) == call_bindings(params, values));
        }
        let ghost entry = *self;
        let outcome = self.execute_block(function.body, environment);
        let ghost ended = *self;
        let ghost body_r = outcome;
        proof {
            assert(block_runs(entry, old(self).scopes().count() as int, function@.body, ended, body_r));
        }
        let r = match outcome {
            Ok(_) => if function.is_initializer {
                self.instance_of(function)
            } else {
                Ok(Value::Nil)
            },
            Err(ControlFlow::Return(return_value)) => if function.is_initializer {
                self.instance_of(function)
            } else {
                Ok(return_value)
            },
            Err(e) => Err(e),
        };
        proof {
            assert(call_entry(*old(self), entry, function@, values));
            assert(call_exit(*self, ended, function@, body_r, r));
        }
        r
    }

    /// The value a method's closure binds to `this`.
    fn instance_of(&self, function: &Function<'a>) -> (r: Result<Value, ControlFlow>)
        requires
            self.wf(),
            function.closure < self.environments.count(),
        ensures
            match self.scopes().resolve(function.closure as int, "this"@) {
                Some(v) => r is Ok && r->Ok_0@ == v,
                None => r is Err && r->Err_0@ == ControlFlowView::RuntimeError(undefined_error("this"@, 0)),
            },
    {
        let this = String::from_str("this");
        match self.environments.get(function.closure, &this, 0) {
            Ok(v) => Ok(v),
            Err(e) => Err(ControlFlow::RuntimeError(e)),
        }
    }

    /// Calls a class: a new instance, initialized by the class's `init`
    /// method (bound to it) if there is one.
    fn instantiate(&mut self, class: usize, arguments: Vec<Value>) -> (r: Result<Value, ControlFlow>)
        requires
            old(self).wf(),
            class < old(self).class_names().len(),
        ensures
            names_kept(*old(self), *final(self)),
            instantiated(*old(self), *final(self), class as int, value_views(arguments@), r),
        decreases old(self).budget(), 5int,
    {
        let index = self.instances.len();
        self.instances.push(Instance::new(class));
        assert forall|i: int| 0 <= i < self.instances@.len() implies (#[trigger] self.instances@[i]).fields.wf() by {
            if i < index {
                assert(self.instances@[i] == old(self).instances@[i]);
            }
        }
        let init = String::from_str("init");
        proof {
            crate::runtime::class::lemma_last_named(functions_view(self.classes@[class as int].methods@), init@);
        }
        proof {
            assert(self.instance_classes() =~= old(self).instance_classes().push(class));
        }
        match self.classes[class].find_method(&init) {
            Some(initializer) => {
                let bound = initializer.bind(&mut self.environments, index);
                proof {
                    self.lemma_closures_grow((self.environments.count() - 1) as nat, self.environments.count());
                }
                let ghost bound_state = *self;
                let ghost args = value_views(arguments@);
                let called = self.call_function(&bound, arguments);
                proof {
                    assert(bound@ == FunctionView { closure: old(self).scopes().count() as usize, ..old(self).class_init(class as int)->Some_0 });
                    assert(call_outcome(bound_state, *self, bound@, args, called));
                    assert(init_bound(*old(self), bound_state, class as int, old(self).class_init(class as int)->Some_0));
                }
                match called {
                    Ok(_) => {
                        proof {
                            assert(init_ended(called, Ok::<Value, ControlFlow>(Value::Instance(index))));
                        }
                    },
                    Err(e) => {
                        proof {
                            assert(init_ended(called, Err::<Value, ControlFlow>(e)));
                        }
                        return Err(e);
                    },
                }
            },
            None => {},
        }
        Ok(Value::Instance(index))
    }

    /// A property of an instance: its field if it has one, else its class's
    /// method bound to it (called at once if it is a getter), else an error.
    pub fn get_property(&mut self, instance: usize, name: &'a Token) -> (r: Result<Value, ControlFlow>)
        requires
            old(self).wf(),
        ensures
            names_kept(*old(self), *final(self)),
            old(self).advanced(final(self)),
            property_read(*old(self), *final(self), instance, name@, r),
        decreases old(self).budget(), 5int,
    {
        if instance >= self.instances.len() {
            return Err(ControlFlow::RuntimeError(error(name, "Only instances have properties.")));
        }
        match self.instances[instance].field(&name.lexeme) {
            Some(v) => {
                return Ok(v);
            },
            None => {},
        }
        let class = self.instances[instance].class;
        if class < self.classes.len() {
            proof {
                crate::runtime::class::lemma_last_named(functions_view(self.classes@[class as int].methods@), name.lexeme@);
            }
            match self.classes[class].find_method(&name.lexeme) {
                Some(method) => {
                    let bound = method.bind(&mut self.environments, instance);
                    proof {
                        self.lemma_closures_grow((self.environments.count() - 1) as nat, self.environments.count());
                    }
                    let ghost bound_state = *self;
                    if bound.is_getter {
                        let no_arguments: Vec<Value> = Vec::new();
                        proof {
                            assert(value_views(no_arguments@) =~= Seq::<ValueView>::empty());
                        }
                        let r = self.call_function(&bound, no_arguments);
                        proof {
                            assert(bound_state.scopes().count() == old(self).scopes().count() + 1);
                        }
                        return r;
                    }
                    let index = self.functions.len();
                    self.functions.push(bound);
                    proof {
                        assert(self.function_views() =~= old(self).function_views().push(bound@));
                        assert(bound_state.scopes().count() == old(self).scopes().count() + 1);
                    }
                    return Ok(Value::Callable(Callable::Function(index)));
                },
                None => {},
            }
        }
        let mut m = String::from_str("Undefined property '");
        append_str(&mut m, name.lexeme.as_str());
        append_str(&mut m, "'.");
        Err(ControlFlow::RuntimeError(RuntimeError::new(name.line, m)))
    }

    /// `object.name`: a property of an instance.
    pub fn visit_get(&mut self, object: &'a Expr, name: &'a Token) -> (r: Result<Value, ControlFlow>)
        requires
            old(self).wf(),
        ensures
            names_kept(*old(self), *final(self)),
            old(self).advanced(final(self)),
            pure_expr(object@) && expr_size(object@) <= old(self).budget() ==> match pure_value(
                old(self).scopes(),
                old(self).current(),
                object@,
            ) {
                Err(e) => r is Err && r->Err_0@ == ControlFlowView::RuntimeError(e),
                Ok(ValueView::Instance(i)) => i < old(self).instance_classes().len() && old(self).instance_fields(
                    i as int,
                ).dom().contains(name.lexeme@) ==> r is Ok && r->Ok_0@ == old(self).instance_fields(i as int)[name.lexeme@],
                Ok(_) => r is Err && r->Err_0@ == ControlFlowView::RuntimeError(
                    error_at(name@, "Only instances have properties."@),
                ),
            },
            get_effect(*old(self), object@, name@, *final(self), r),
        decreases old(self).budget(), 7int,
    {
        let object_result = self.visit_expression(object);
        proof {
            assert(evaluation(*old(self), *self, object_result));
        }
        let object_value = match object_result {
            Ok(v) => v,
            Err(e) => {
                return Err(e);
            },
        };
        match object_value {
            Value::Instance(instance) => self.get_property(instance, name),
            _ => Err(ControlFlow::RuntimeError(error(name, "Only instances have properties."))),
        }
    }

    /// `object.name = value`: sets a field of an instance; the value is the
    /// result.
    pub fn visit_set(&mut self, object: &'a Expr, name: &'a Token, value: &'a Expr) -> (r: Result<Value, ControlFlow>)
        requires
            old(self).wf(),
        ensures
            names_kept(*old(self), *final(self)),
            old(self).advanced(final(self)),
            pure_expr(object@) && pure_expr(value@) && expr_size(object@) + expr_size(value@) <= old(self).budget() ==> match pure_value(
                old(self).scopes(),
                old(self).current(),
                object@,
            ) {
                Err(e) => r is Err && r->Err_0@ == ControlFlowView::RuntimeError(e),
                Ok(ValueView::Instance(i)) => match pure_value(old(self).scopes(), old(self).current(), value@) {
                    Err(e) => r is Err && r->Err_0@ == ControlFlowView::RuntimeError(e),
                    Ok(v) => i < old(self).instance_classes().len() ==> r is Ok && r->Ok_0@ == v
                        && final(self).instance_fields(i as int) == old(self).instance_fields(i as int).insert(name.lexeme@, v),
                },
                Ok(_) => r is Err && r->Err_0@ == ControlFlowView::RuntimeError(
                    error_at(name@, "Only instances have fields."@),
                ),
            },
            set_effect(*old(self), object@, name@, value@, *final(self), r),
        decreases old(self).budget(), 6int,
    {
        let object_result = self.visit_expression(object);
        let ghost mid = *self;
        proof {
            assert(evaluation(*old(self), mid, object_result));
        }
        let object_value = match object_result {
            Ok(v) => v,
            Err(e) => {
                return Err(e);
            },
        };
        let instance = match object_value {
            Value::Instance(i) => i,
            _ => {
                return Err(ControlFlow::RuntimeError(error(name, "Only instances have fields.")));
            },
        };
        let value_result = self.visit_expression(value);
        let ghost evaluated = *self;
        proof {
            assert(evaluation(mid, evaluated, value_result));
            lemma_names_chain(*old(self), mid, evaluated);
        }
        let v = match value_result {
            Ok(v) => v,
            Err(e) => {
                return Err(e);
            },
        };
        if instance >= self.instances.len() {
            return Err(ControlFlow::RuntimeError(error(name, "Only instances have fields.")));
        }
        let ghost before = self.instances@;
        let mut target = Instance::new(0);
        std::mem::swap(&mut target, &mut self.instances[instance]);
        let _ = target.set(name, v.copy());
        self.instances.set(instance, target);
        assert forall|i: int| 0 <= i < self.instances@.len() implies (#[trigger] self.instances@[i]).fields.wf() by {
            if i != instance {
                assert(self.instances@[i] == before[i]);
            }
        }
        proof {
            assert(names_kept(evaluated, *self));
            lemma_names_chain(*old(self), evaluated, *self);
        }
        Ok(v)
    }

    /// A lambda: a function closing over the current scope.
    pub fn visit_lambda(&mut self, params: &'a Vec<Token>, body: &'a Vec<Statement>) -> (r: Result<Value, ControlFlow>)
        requires
            old(self).wf(),
        ensures
            names_kept(*old(self), *final(self)),
            lambda_effect(*old(self), tokens_view(params@), statements_view(body@), *final(self), r),
    {
        let function = Function::new(String::from_str("<lambda>"), lexemes(params), body, self.environment, false);
        let index = self.functions.len();
        let ghost fv = function@;
        self.functions.push(function);
        assert(self.function_views() =~= old(self).function_views().push(fv));
        Ok(Value::Callable(Callable::Function(index)))
    }
}


impl<'a> Interpreter<'a> {
    /// Runs a statement.
    #[verifier::spinoff_prover]
    pub fn visit_statement(&mut self, statement: &'a Statement) -> (r: Result<Value, ControlFlow>)
        requires
            old(self).wf(),
        ensures
            names_kept_outside(*old(self), *final(self), old(self).current()),
            old(self).advanced(final(self)),
            old(self).budget() == 0 ==> r is Err && r->Err_0@ == exhausted(),
            statement_step(*old(self), statement@, *final(self), r),
        decreases old(self).budget(), 0int,
    {
        match self.step() {
            Ok(()) => {},
            Err(e) => {
                return Err(e);
            },
        }
        let ghost mid = *self;
        let r = match statement {
            Statement::Expression { expression } => {
                let r = self.visit_expression_statement(expression);
                assert(statement_effect(mid, statement@, *self, r));
                r
            },
            Statement::If { condition, then_branch, else_branch } => {
                let r = self.visit_if_statement(condition, then_branch, else_branch);
                assert(statement_effect(mid, statement@, *self, r));
                r
            },
            Statement::Print { expression } => {
                let r = self.visit_print_statement(expression);
                assert(statement_effect(mid, statement@, *self, r));
                r
            },
            Statement::Var { name, initializer } => {
                let r = self.visit_var_statement(name, initializer);
                assert(statement@ == StatementView::Var { name: name@, initializer: opt_expr_view(*initializer) });
                assert(statement_effect(mid, statement@, *self, r));
                r
            },
            Statement::While { condition, body } => {
                let r = self.visit_while_statement(condition, body);
                assert(statement@ == StatementView::While { condition: condition@, body: Box::new((**body)@) });
                assert(statement_effect(mid, statement@, *self, r));
                r
            },
            Statement::Block { statements } => {
                let r = self.visit_block_statement(statements);
                assert(statement@ == StatementView::Block { statements: statements_view(statements@) });
                assert(statement_effect(mid, statement@, *self, r));
                r
            },
            Statement::Function { .. } => {
                let r = self.visit_function_statement(statement);
                assert(statement_effect(mid, statement@, *self, r));
                r
            },
            Statement::Return { keyword, value } => {
                let r = self.visit_return_statement(keyword, value);
                assert(statement@ == StatementView::Return { keyword: keyword@, value: opt_expr_view(*value) });
                assert(statement_effect(mid, statement@, *self, r));
                r
            },
            Statement::Class { name, methods, static_fields, static_methods, .. } => {
                let r = self.visit_class_statement(name, methods, static_fields, static_methods);
                assert(statement_effect(mid, statement@, *self, r));
                r
            },
        };
        proof {
            assert(stepped_from(*old(self), mid));
            assert(statement_step(*old(self), statement@, *self, r));
        }
        r
    }

    /// Runs statements in order in scope `environment`, then returns to the
    /// current scope; the first statement that leaves early ends the block.
    pub fn execute_block(&mut self, statements: &'a Vec<Statement>, environment: usize) -> (r: Result<Value, ControlFlow>)
        requires
            old(self).wf(),
            environment < old(self).scopes().count(),
        ensures
            names_kept_outside(*old(self), *final(self), environment as int),
            old(self).advanced(final(self)),
            r is Ok ==> r->Ok_0 is Nil,
            statements@.len() == 0 ==> r is Ok && *final(self) == *old(self),
            statements@.len() > 0 && old(self).budget() == 0 ==> r is Err && r->Err_0@ == exhausted(),
            block_runs(*old(self), environment as int, statements_view(statements@), *final(self), r),
        decreases old(self).budget(), 2int,
    {
        let ghost sv = statements_view(statements@);
        proof {
            crate::ast::statement::lemma_statements_view_index(statements@);
        }
        if statements.len() == 0 {
            proof {
                let first = Interpreter { environment: environment, ..*self };
                assert(runs(sv, seq![first], Seq::<Result<Value, ControlFlow>>::empty(), true));
                assert(run_frames(*self, environment as int, *self, seq![first], Seq::<Result<Value, ControlFlow>>::empty()));
            }
            return Ok(Value::Nil);
        }
        let previous = self.environment;
        self.environment = environment;
        let ghost mut states: Seq<Interpreter<'a>> = seq![*self];
        let ghost mut outcomes: Seq<Result<Value, ControlFlow>> = Seq::empty();
        let mut i: usize = 0;
        while i < statements.len()
            invariant
                sv == statements_view(statements@),
                sv.len() == statements@.len(),
                forall|j: int| 0 <= j < statements@.len() ==> #[trigger] sv[j] == statements@[j]@,
                states.len() == i + 1,
                outcomes.len() == i,
                states[0].scopes() == old(self).scopes(),
                states[0].current() == environment,
                states[0].budget() == old(self).budget(),
                states[0].printed() == old(self).printed(),
                states.last() == *self,
                forall|j: int| 0 <= j < i ==> statement_step(states[j], sv[j], states[j + 1], #[trigger] outcomes[j]),
                forall|j: int| 0 <= j <= i ==> (#[trigger] states[j]).budget() <= states[0].budget(),
                forall|j: int| 0 <= j < i ==> (#[trigger] outcomes[j]) is Ok,
                self.wf(),
                self.environment == environment,
                self.steps <= old(self).budget(),
                old(self).scopes().count() <= self.environments.count(),
                forall|j: int| 0 <= j < old(self).scopes().count() ==> #[trigger] self.environments.parent(j)
                    == old(self).environments.parent(j),
                i == 0 ==> self.steps == old(self).budget(),
                i > 0 ==> old(self).budget() > 0,
                old(self).functions@.len() <= self.functions@.len(),
                previous == old(self).environment,
                previous < old(self).scopes().count(),
                i <= statements@.len(),
                names_kept_outside(*old(self), *self, environment as int),
            decreases statements@.len() - i,
        {
            let ghost prev = *self;
            let result = self.visit_statement(&statements[i]);
            proof {
                lemma_kept_chain(*old(self), prev, *self, environment as int);
            }
            proof {
                states = states.push(*self);
                outcomes = outcomes.push(result);
            }
            match result {
                Ok(_) => {},
                Err(e) => {
                    self.environment = previous;
                    proof {
                        assert(runs(sv, states, outcomes, true));
                        assert(run_frames(*old(self), environment as int, *self, states, outcomes));
                    }
                    return Err(e);
                },
            }
            i = i + 1;
        }
        self.environment = previous;
        proof {
            assert(states.len() == outcomes.len() + 1);
            assert(outcomes.len() <= sv.len());
            assert(forall|j: int|
                0 <= j < outcomes.len() && j < sv.len() ==> statement_step(
                    states[j],
                    sv[j],
                    states[j + 1],
                    #[trigger] outcomes[j],
                ));
            assert(forall|j: int| 0 <= j < outcomes.len() - 1 ==> !ends_run(#[trigger] outcomes[j], true));
            assert(runs(sv, states, outcomes, true));
            assert(run_frames(*old(self), environment as int, *self, states, outcomes));
        }
        Ok(Value::Nil)
    }

    /// Runs a program's statements in order, stopping at the first runtime
    /// error, which is returned. A `return` at the top level is ignored.
    pub fn interpret(&mut self, statements: &'a Vec<Statement>) -> (r: Result<(), RuntimeError>)
        requires
            old(self).wf(),
        ensures
            old(self).advanced(final(self)),
            statements@.len() == 0 ==> r is Ok && *final(self) == *old(self),
            statements@.len() > 0 && old(self).budget() == 0 ==> r is Err && ControlFlowView::RuntimeError(r->Err_0@)
                == exhausted(),
            exists|states: Seq<Interpreter<'a>>, outcomes: Seq<Result<Value, ControlFlow>>|
                #[trigger] runs(statements_view(statements@), states, outcomes, false) && states[0] == *old(self)
                    && states.last() == *final(self) && if ended_early(outcomes, false) {
                    r is Err && outcomes.last() == Err::<Value, ControlFlow>(ControlFlow::RuntimeError(r->Err_0))
                } else {
                    r is Ok
                },
    {
        let ghost sv = statements_view(statements@);
        proof {
            crate::ast::statement::lemma_statements_view_index(statements@);
        }
        let ghost mut states: Seq<Interpreter<'a>> = seq![*self];
        let ghost mut outcomes: Seq<Result<Value, ControlFlow>> = Seq::empty();
        let mut i: usize = 0;
        while i < statements.len()
            invariant
                old(self).advanced(self),
                i == 0 ==> *self == *old(self),
                i > 0 ==> old(self).budget() > 0,
                i <= statements@.len(),
                sv == statements_view(statements@),
                sv.len() == statements@.len(),
                forall|j: int| 0 <= j < statements@.len() ==> #[trigger] sv[j] == statements@[j]@,
                states.len() == i + 1,
                outcomes.len() == i,
                states[0] == *old(self),
                states.last() == *self,
                forall|j: int| 0 <= j < i ==> statement_step(states[j], sv[j], states[j + 1], #[trigger] outcomes[j]),
                forall|j: int| 0 <= j <= i ==> (#[trigger] states[j]).budget() <= states[0].budget(),
                forall|j: int| 0 <= j < i ==> !ends_run(#[trigger] outcomes[j], false),
            decreases statements@.len() - i,
        {
            let result = self.visit_statement(&statements[i]);
            proof {
                states = states.push(*self);
                outcomes = outcomes.push(result);
            }
            match result {
                Err(ControlFlow::RuntimeError(e)) => {
                    proof {
                        assert(runs(sv, states, outcomes, false));
                    }
                    return Err(e);
                },
                _ => {},
            }
            i = i + 1;
        }
        proof {
            assert(runs(sv, states, outcomes, false));
        }
        Ok(())
    }

    /// An expression statement: the expression's value.
    pub fn visit_expression_statement(&mut self, expression: &'a Expr) -> (r: Result<Value, ControlFlow>)
        requires
            old(self).wf(),
        ensures
            names_kept_outside(*old(self), *final(self), old(self).current()),
            old(self).advanced(final(self)),
            pure_expr(expression@) && expr_size(expression@) <= old(self).budget() ==> matches_pure(
                r,
                pure_value(old(self).scopes(), old(self).current(), expression@),
            ) && final(self).scopes() == old(self).scopes() && final(self).printed() == old(self).printed(),
            expression_step(*old(self), expression@, *final(self), r),
        decreases old(self).budget(), 1int,
    {
        self.visit_expression(expression)
    }

    /// `print`: evaluates the expression and appends how its value prints.
    pub fn visit_print_statement(&mut self, expression: &'a Expr) -> (r: Result<Value, ControlFlow>)
        requires
            old(self).wf(),
        ensures
            names_kept_outside(*old(self), *final(self), old(self).current()),
            old(self).advanced(final(self)),
            r is Ok ==> r->Ok_0 is Nil,
            pure_expr(expression@) && expr_size(expression@) <= old(self).budget() ==> match pure_value(
                old(self).scopes(),
                old(self).current(),
                expression@,
            ) {
                Ok(v) => r is Ok && (plain(v) ==> final(self).printed() == old(self).printed().push(plain_printed(v))),
                Err(e) => r is Err && r->Err_0@ == ControlFlowView::RuntimeError(e),
            },
            print_effect(*old(self), expression@, *final(self), r),
        decreases old(self).budget(), 1int,
    {
        let value_result = self.visit_expression(expression);
        let ghost evaluated = *self;
        proof {
            assert(expression_step(*old(self), expression@, *self, value_result));
            assert(evaluation(*old(self), *self, value_result));
            lemma_kept_outside(*old(self), *self, old(self).current());
        }
        let value = match value_result {
            Ok(v) => v,
            Err(e) => {
                return Err(e);
            },
        };
        let printed = self.display(&value);
        let ghost before = self.printed();
        self.output.push(printed);
        assert(self.printed() =~= before.push(printed@));
        proof {
            assert(expression_step(*old(self), expression@, evaluated, value_result));
            assert(evaluation(*old(self), evaluated, value_result));
            assert(names_kept_outside(evaluated, *self, old(self).current()));
            lemma_kept_chain(*old(self), evaluated, *self, old(self).current());
        }
        Ok(Value::Nil)
    }

    /// A block: its statements in a new scope inside the current one.
    pub fn visit_block_statement(&mut self, statements: &'a Vec<Statement>) -> (r: Result<Value, ControlFlow>)
        requires
            old(self).wf(),
        ensures
            names_kept_outside(*old(self), *final(self), old(self).current()),
            old(self).advanced(final(self)),
            r is Ok ==> r->Ok_0 is Nil,
            final(self).scopes().count() > old(self).scopes().count(),
            final(self).scopes().parent(old(self).scopes().count() as int) matches Some(p) && p == old(self).current(),
            statements@.len() > 0 && old(self).budget() == 0 ==> r is Err && r->Err_0@ == exhausted(),
            statements@.len() == 0 ==> r is Ok && final(self).budget() == old(self).budget() && final(self).printed()
                == old(self).printed() && final(self).scopes().count() == old(self).scopes().count() + 1
                && final(self).scopes().scope(old(self).scopes().count() as int) == Map::<Seq<char>, ValueView>::empty()
                && forall|j: int|
                0 <= j < old(self).scopes().count() ==> final(self).scopes().scope(j) == old(self).scopes().scope(j),
            exists|entry: Interpreter<'a>|
                #[trigger] block_entry(*old(self), entry) && block_runs(
                    entry,
                    old(self).scopes().count() as int,
                    statements_view(statements@),
                    *final(self),
                    r,
                ),
        decreases old(self).budget(), 3int,
    {
        let environment = self.environments.new_scope(self.environment);
        proof {
            self.lemma_closures_grow((self.environments.count() - 1) as nat, self.environments.count());
        }
        let ghost entry = *self;
        let r = self.execute_block(statements, environment);
        proof {
            assert(block_runs(entry, old(self).scopes().count() as int, statements_view(statements@), *self, r));
            assert(block_entry(*old(self), entry));
        }
        r
    }

    /// `if`: the then branch when the condition is true, else the else
    /// branch if there is one.
    pub fn visit_if_statement(&mut self, condition: &'a Expr, then_branch: &'a Statement, else_branch: &'a Option<Box<Statement>>) -> (r: Result<Value, ControlFlow>)
        requires
            old(self).wf(),
        ensures
            names_kept_outside(*old(self), *final(self), old(self).current()),
            old(self).advanced(final(self)),
            pure_expr(condition@) && expr_size(condition@) <= old(self).budget() ==> match pure_value(
                old(self).scopes(),
                old(self).current(),
                condition@,
            ) {
                Err(e) => r is Err && r->Err_0@ == ControlFlowView::RuntimeError(e),
                Ok(v) => (!truthy(v) && else_branch is None) ==> r is Ok && r->Ok_0 is Nil && old(self).same_state(
                    final(self),
                ),
            },
            exists|mid: Interpreter<'a>, c: Result<Value, ControlFlow>|
                #[trigger] evaluation(*old(self), mid, c) && expression_step(*old(self), condition@, mid, c) && match c {
                    Err(_) => r == c && *final(self) == mid,
                    Ok(v) => if truthy(v@) {
                        statement_step(mid, then_branch@, *final(self), r)
                    } else {
                        match else_branch {
                            Some(b) => statement_step(mid, b@, *final(self), r),
                            None => r is Ok && r->Ok_0 is Nil && *final(self) == mid,
                        }
                    },
                },
        decreases old(self).budget(), 1int,
    {
        let condition_result = self.visit_expression(condition);
        let ghost mid = *self;
        proof {
            assert(expression_step(*old(self), condition@, mid, condition_result));
            assert(evaluation(*old(self), mid, condition_result));
        }
        let condition_value = match condition_result {
            Ok(v) => v,
            Err(e) => {
                return Err(e);
            },
        };
        if is_truthy(&condition_value) {
            self.visit_statement(then_branch)
        } else {
            match else_branch {
                Some(else_statement) => self.visit_statement(else_statement),
                None => Ok(Value::Nil),
            }
        }
    }

    /// `var`: binds the name in the current scope to the initializer's
    /// value, or to nil without one.
    pub fn visit_var_statement(&mut self, name: &'a Token, initializer: &'a Option<Expr>) -> (r: Result<Value, ControlFlow>)
        requires
            old(self).wf(),
        ensures
            names_kept_outside(*old(self), *final(self), old(self).current()),
            old(self).advanced(final(self)),
            initializer is None ==> r is Ok && r->Ok_0 is Nil && final(self).scopes().scope(old(self).current())
                == old(self).scopes().scope(old(self).current()).insert(name.lexeme@, ValueView::Nil)
                && final(self).printed() == old(self).printed(),
            initializer matches Some(init) ==> (pure_expr(init@) && expr_size(init@) <= old(self).budget() ==> match pure_value(
                old(self).scopes(),
                old(self).current(),
                init@,
            ) {
                Ok(v) => r is Ok && final(self).scopes().scope(old(self).current()) == old(self).scopes().scope(
                    old(self).current(),
                ).insert(name.lexeme@, v),
                Err(e) => r is Err && r->Err_0@ == ControlFlowView::RuntimeError(e),
            }),
            initializer matches Some(init) ==> var_effect(*old(self), name@, init@, *final(self), r),
        decreases old(self).budget(), 1int,
    {
        let ghost mut evaluated = *self;
        let ghost mut init_outcome: Result<Value, ControlFlow> = Ok(Value::Nil);
        let value = match initializer {
            Some(init_expr) => {
                let init_result = self.visit_expression(init_expr);
                proof {
                    evaluated = *self;
                    init_outcome = init_result;
                    assert(expression_step(*old(self), init_expr@, *self, init_result));
                    assert(evaluation(*old(self), *self, init_result));
                    lemma_kept_outside(*old(self), *self, old(self).current());
                }
                match init_result {
                    Ok(v) => v,
                    Err(e) => {
                        return Err(e);
                    },
                }
            },
            None => Value::Nil,
        };
        self.environments.define(self.environment, name.lexeme.clone(), value);
        proof {
            if initializer is Some {
                assert(expression_step(*old(self), initializer->Some_0@, evaluated, init_outcome));
                assert(evaluation(*old(self), evaluated, init_outcome));
            }
            assert forall|i: int| 0 <= i < evaluated.scopes().count() && i != old(self).current() implies #[trigger] self.scopes().scope(i).dom()
                == evaluated.scopes().scope(i).dom() by {
                assert(self.environments.scope(i) == evaluated.environments.scope(i));
            }
            lemma_kept_chain(*old(self), evaluated, *self, old(self).current());
        }
        Ok(Value::Nil)
    }

    /// `while`: runs the body as long as the condition is true.
    #[verifier::loop_isolation(false)]
    #[verifier::spinoff_prover]
    #[verifier::rlimit(40)]
    pub fn visit_while_statement(&mut self, condition: &'a Expr, body: &'a Statement) -> (r: Result<Value, ControlFlow>)
        requires
            old(self).wf(),
        ensures
            names_kept_outside(*old(self), *final(self), old(self).current()),
            old(self).advanced(final(self)),
            pure_expr(condition@) && expr_size(condition@) <= old(self).budget() ==> match pure_value(
                old(self).scopes(),
                old(self).current(),
                condition@,
            ) {
                Err(e) => r is Err && r->Err_0@ == ControlFlowView::RuntimeError(e),
                Ok(v) => !truthy(v) ==> r is Ok && r->Ok_0 is Nil && old(self).same_state(final(self)),
            },
            exists|
                tests: Seq<Interpreter<'a>>,
                bodies_from: Seq<Interpreter<'a>>,
                conds: Seq<Result<Value, ControlFlow>>,
                bodies: Seq<Result<Value, ControlFlow>>,
            |
                #[trigger] loop_shape(tests, bodies_from, conds, bodies) && tests[0] == *old(self) && loop_runs(
                    condition@,
                    body@,
                    tests,
                    bodies_from,
                    conds,
                    bodies,
                    *final(self),
                    r,
                ),
        decreases old(self).budget(), 1int,
    {
        let ghost mut first = true;
        let ghost mut tests: Seq<Interpreter<'a>> = seq![*self];
        let ghost mut bodies_from: Seq<Interpreter<'a>> = Seq::empty();
        let ghost mut conds: Seq<Result<Value, ControlFlow>> = Seq::empty();
        let ghost mut bodies: Seq<Result<Value, ControlFlow>> = Seq::empty();
        loop
            invariant
                old(self).advanced(self),
                first ==> old(self).same_state(self) && self.steps == old(self).steps,
                !first ==> (pure_expr(condition@) && expr_size(condition@) <= old(self).budget() ==> (pure_value(
                    old(self).scopes(),
                    old(self).current(),
                    condition@,
                ) matches Ok(v) && truthy(v))),
                tests.len() == conds.len() + 1,
                bodies_from.len() == conds.len(),
                bodies.len() == conds.len(),
                tests[0] == *old(self),
                tests.last() == *self,
                loop_tests(condition@, tests, bodies_from, conds),
                loop_bodies(body@, tests, bodies_from, conds, bodies, tests.last()),
                forall|k: int| 0 <= k < bodies.len() ==> (#[trigger] bodies[k]) is Ok,
                forall|k: int| 0 <= k < tests.len() ==> (#[trigger] tests[k]).budget() <= tests[0].budget(),
                forall|k: int| 0 <= k < bodies_from.len() ==> (#[trigger] bodies_from[k]).budget() <= tests[0].budget(),
                names_kept_outside(*old(self), *self, old(self).current()),
            decreases self.steps,
        {
            let ghost n = conds.len();
            let ghost at_test = *self;
            let condition_result = self.visit_expression(condition);
            let ghost c = condition_result;
            proof {
                lemma_kept_outside(at_test, *self, old(self).current());
                lemma_kept_chain(*old(self), at_test, *self, old(self).current());
            }
            let ghost old_from = bodies_from;
            let ghost old_conds = conds;
            proof {
                bodies_from = bodies_from.push(*self);
                conds = conds.push(c);
                assert forall|k: int| 0 <= k < conds.len() implies tests[k].budget() <= tests[0].budget() && expression_step(
                    tests[k],
                    condition@,
                    bodies_from[k],
                    #[trigger] conds[k],
                ) by {
                    if k < n {
                        assert(conds[k] == old_conds[k]);
                        assert(bodies_from[k] == old_from[k]);
                        assert(expression_step(tests[k], condition@, old_from[k], old_conds[k]));
                    }
                }
                assert(loop_tests(condition@, tests, bodies_from, conds));
                assert forall|k: int| 0 <= k < bodies.len() implies conds[k] is Ok && truthy(conds[k]->Ok_0@)
                    && bodies_from[k].budget() <= tests[0].budget() && statement_step(
                    bodies_from[k],
                    body@,
                    if k + 1 < conds.len() {
                        tests[k + 1]
                    } else {
                        *self
                    },
                    #[trigger] bodies[k],
                ) && (k + 1 < conds.len() ==> bodies[k] is Ok) by {
                    assert(old_conds[k] is Ok && truthy(old_conds[k]->Ok_0@) && statement_step(
                        old_from[k],
                        body@,
                        if k + 1 < n {
                            tests[k + 1]
                        } else {
                            tests.last()
                        },
                        bodies[k],
                    ));
                    assert(conds[k] == old_conds[k]);
                    assert(bodies_from[k] == old_from[k]);
                }
                assert(loop_bodies(body@, tests, bodies_from, conds, bodies, *self));
            }
            assert(bodies_from.last().budget() <= tests[0].budget());
            let condition_value = match condition_result {
                Ok(v) => v,
                Err(e) => {
                    proof {
                        assert(loop_runs(condition@, body@, tests, bodies_from, conds, bodies, *self, c)); assert(loop_shape(tests, bodies_from, conds, bodies));
                    }
                    return Err(e);
                },
            };
            if !is_truthy(&condition_value) {
                proof {
                    assert(loop_runs(condition@, body@, tests, bodies_from, conds, bodies, *self, Ok(Value::Nil))); assert(loop_shape(tests, bodies_from, conds, bodies));
                }
                return Ok(Value::Nil);
            }
            let ghost before_body = *self;
            let body_result = self.visit_statement(body);
            let ghost b = body_result;
            proof {
                lemma_kept_chain(*old(self), before_body, *self, old(self).current());
            }
            let ghost old_bodies = bodies;
            proof {
                bodies = bodies.push(b);
                assert forall|k: int| 0 <= k < bodies.len() implies conds[k] is Ok && truthy(conds[k]->Ok_0@)
                    && bodies_from[k].budget() <= tests[0].budget() && statement_step(
                    bodies_from[k],
                    body@,
                    if k + 1 < conds.len() {
                        tests[k + 1]
                    } else {
                        *self
                    },
                    #[trigger] bodies[k],
                ) && (k + 1 < conds.len() ==> bodies[k] is Ok) by {
                    if k < n {
                        assert(bodies[k] == old_bodies[k]);
                        assert(conds[k] is Ok && truthy(conds[k]->Ok_0@) && statement_step(
                            bodies_from[k],
                            body@,
                            tests[k + 1],
                            old_bodies[k],
                        ) && (k + 1 < conds.len() ==> old_bodies[k] is Ok));
                    } else {
                        assert(bodies_from[k] == before_body);
                        assert(conds[k] == c);
                        assert(bodies[k] == b);
                    }
                }
                assert(loop_bodies(body@, tests, bodies_from, conds, bodies, *self));
            }
            match body_result {
                Ok(_) => {},
                Err(e) => {
                    proof {
                        assert(loop_runs(condition@, body@, tests, bodies_from, conds, bodies, *self, b)); assert(loop_shape(tests, bodies_from, conds, bodies));
                    }
                    return Err(e);
                },
            }
            let ghost old_tests = tests;
            proof {
                first = false;
                tests = tests.push(*self);
                assert forall|k: int| 0 <= k < bodies.len() implies conds[k] is Ok && truthy(conds[k]->Ok_0@)
                    && bodies_from[k].budget() <= tests[0].budget() && statement_step(
                    bodies_from[k],
                    body@,
                    if k + 1 < conds.len() {
                        tests[k + 1]
                    } else {
                        tests.last()
                    },
                    #[trigger] bodies[k],
                ) && (k + 1 < conds.len() ==> bodies[k] is Ok) by {
                    assert(conds[k] is Ok && truthy(conds[k]->Ok_0@) && statement_step(
                        bodies_from[k],
                        body@,
                        if k + 1 < conds.len() {
                            old_tests[k + 1]
                        } else {
                            *self
                        },
                        bodies[k],
                    ) && (k + 1 < conds.len() ==> bodies[k] is Ok));
                    assert(tests[k] == old_tests[k]);
                    if k + 1 < conds.len() {
                        assert(tests[k + 1] == old_tests[k + 1]);
                    }
                }
                assert(loop_bodies(body@, tests, bodies_from, conds, bodies, tests.last()));
                assert forall|k: int| 0 <= k < conds.len() implies tests[k].budget() <= tests[0].budget() && expression_step(
                    tests[k],
                    condition@,
                    bodies_from[k],
                    #[trigger] conds[k],
                ) by {
                    assert(tests[k] == old_tests[k]);
                }
                assert(loop_tests(condition@, tests, bodies_from, conds));
            }
        }
    }


    /// A function declaration: binds its name in the current scope to the
    /// function, closing over the current scope.
    pub fn visit_function_statement(&mut self, statement: &'a Statement) -> (r: Result<Value, ControlFlow>)
        requires
            old(self).wf(),
        ensures
            names_kept_outside(*old(self), *final(self), old(self).current()),
            old(self).advanced(final(self)),
            match statement@ {
                StatementView::Function { name, params, body, is_getter } => r is Ok
                    && final(self).function_views() == old(self).function_views().push(
                    FunctionView {
                        name: name.lexeme,
                        params: lexemes_of(params),
                        body,
                        closure: old(self).current() as usize,
                        is_initializer: false,
                        is_getter,
                    },
                ) && final(self).scopes().scope(old(self).current()) == old(self).scopes().scope(
                    old(self).current(),
                ).insert(name.lexeme, ValueView::Callable(Callable::Function(old(self).function_views().len() as usize))),
                _ => r is Err && r->Err_0@ == not_a_function(),
            },
            function_effect(*old(self), statement@, *final(self), r),
    {
        let function = match Function::from_statement(statement, self.environment, false) {
            Ok(f) => f,
            Err(e) => {
                return Err(e);
            },
        };
        let name = function.name.clone();
        let index = self.functions.len();
        let ghost fv = function@;
        self.functions.push(function);
        assert(self.function_views() =~= old(self).function_views().push(fv));
        self.environments.define(self.environment, name, Value::Callable(Callable::Function(index)));
        Ok(Value::Nil)
    }

    /// Evaluates the initializers of a class's static fields in order and
    /// binds each field to its value (nil without one), stopping at the
    /// first error.
    #[verifier::spinoff_prover]
    #[verifier::rlimit(40)]
    fn evaluate_static_fields(&mut self, static_fields: &'a Vec<Statement>) -> (r: Result<Environment, ControlFlow>)
        requires
            old(self).wf(),
        ensures
            old(self).advanced(final(self)),
            names_kept(*old(self), *final(self)),
            r matches Ok(f) ==> f.wf(),
            static_fields@.len() == 0 ==> r is Ok && *final(self) == *old(self),
            exists|states: Seq<Interpreter<'a>>, outcomes: Seq<Result<Value, ControlFlow>>|
                #[trigger] argument_frames(*old(self), states, outcomes) && arguments_run(
                    field_initializers(statements_view(static_fields@)),
                    states,
                    outcomes,
                ) && states.last() == *final(self) && match r {
                    Err(e) => outcomes.len() > 0 && outcomes.last() == Err::<Value, ControlFlow>(e),
                    Ok(_) => !(outcomes.len() > 0 && outcomes.last() is Err),
                },
        decreases old(self).budget(), 1int,
    {
        let ghost fv = statements_view(static_fields@);
        proof {
            crate::ast::statement::lemma_statements_view_index(static_fields@);
        }
        let ghost mut states: Seq<Interpreter<'a>> = seq![*self];
        let ghost mut outcomes: Seq<Result<Value, ControlFlow>> = Seq::empty();
        let ghost all_inits = field_initializers(fv);
        let mut fields = Environment::new(None);
        let mut i: usize = 0;
        while i < static_fields.len()
            invariant
                old(self).advanced(self),
                fields.wf(),
                i <= static_fields@.len(),
                static_fields@.len() == 0 ==> *self == *old(self),
                names_kept(*old(self), *self),
                fv == statements_view(static_fields@),
                fv.len() == static_fields@.len(),
                forall|j: int| 0 <= j < static_fields@.len() ==> #[trigger] fv[j] == static_fields@[j]@,
                all_inits == field_initializers(fv),
                states.len() == outcomes.len() + 1,
                outcomes.len() == field_initializers(fv.take(i as int)).len(),
                states[0] == *old(self),
                states.last() == *self,
                forall|j: int|
                    0 <= j < outcomes.len() ==> states[j].budget() <= states[0].budget() && expression_step(
                        states[j],
                        field_initializers(fv.take(i as int))[j],
                        states[j + 1],
                        #[trigger] outcomes[j],
                    ),
                forall|j: int| 0 <= j < outcomes.len() ==> (#[trigger] outcomes[j]) is Ok,
                forall|j: int| 0 <= j <= outcomes.len() ==> (#[trigger] states[j]).budget() <= states[0].budget(),
            decreases static_fields@.len() - i,
        {
            let ghost before_inits = field_initializers(fv.take(i as int));
            proof {
                assert(fv.take(i + 1).drop_last() =~= fv.take(i as int));
                assert(fv.take(i + 1).last() == fv[i as int]);
            }
            match &static_fields[i] {
                Statement::Var { name, initializer } => {
                    let value = match initializer {
                        Some(init_expr) => {
                            let ghost prev = *self;
                            let evaluated = self.visit_expression(init_expr);
                            let ghost o = evaluated;
                            proof {
                                lemma_names_chain(*old(self), prev, *self);
                                assert(fv[i as int] == StatementView::Var { name: name@, initializer: opt_expr_view(*initializer) });
                                assert(opt_expr_view(*initializer) == Some(init_expr@));
                                assert(field_initializers(fv.take(i + 1)) == before_inits.push(init_expr@));
                                states = states.push(*self);
                                outcomes = outcomes.push(o);
                                assert forall|j: int|
                                    0 <= j < outcomes.len() implies states[j].budget() <= states[0].budget()
                                    && expression_step(
                                    states[j],
                                    field_initializers(fv.take(i + 1))[j],
                                    states[j + 1],
                                    #[trigger] outcomes[j],
                                ) by {
                                    if j < outcomes.len() - 1 {
                                        assert(field_initializers(fv.take(i + 1))[j] == before_inits[j]);
                                    }
                                }
                            }
                            match evaluated {
                                Ok(v) => v,
                                Err(e) => {
                                    proof {
                                        lemma_initializers_prefix(fv, i + 1);
                                        assert(arguments_run(all_inits, states, outcomes));
                                        assert(argument_frames(*old(self), states, outcomes));
                                    }
                                    return Err(e);
                                },
                            }
                        },
                        None => {
                            proof {
                                assert(fv[i as int] == StatementView::Var { name: name@, initializer: opt_expr_view(*initializer) });
                                assert(opt_expr_view(*initializer) == None::<ExprView>);
                                assert(field_initializers(fv.take(i + 1)) == before_inits);
                            }
                            Value::Nil
                        },
                    };
                    fields.define(name.lexeme.clone(), value);
                },
                _ => {
                    proof {
                        assert(fv[i as int] == static_fields@[i as int]@);
                        assert(!(fv[i as int] is Var));
                        assert(field_initializers(fv.take(i + 1)) == before_inits);
                    }
                },
            }
            i = i + 1;
        }
        proof {
            assert(fv.take(fv.len() as int) =~= fv);
            assert(arguments_run(all_inits, states, outcomes));
            assert(argument_frames(*old(self), states, outcomes));
        }
        Ok(fields)
    }

    /// A class declaration: binds its name in the current scope to the class.
    /// Its methods close over the current scope; `init` is its initializer.
    #[verifier::spinoff_prover]
    #[verifier::rlimit(30)]
    pub fn visit_class_statement(
        &mut self,
        name: &'a Token,
        methods: &'a Vec<Statement>,
        static_fields: &'a Vec<Statement>,
        static_methods: &'a Vec<Statement>,
    ) -> (r: Result<Value, ControlFlow>)
        requires
            old(self).wf(),
        ensures
            names_kept_outside(*old(self), *final(self), old(self).current()),
            old(self).advanced(final(self)),
            static_fields@.len() == 0 && r is Ok ==> final(self).class_names() == old(self).class_names().push(
                name.lexeme@,
            ) && final(self).scopes().scope(old(self).current()) == old(self).scopes().scope(old(self).current()).insert(
                name.lexeme@,
                ValueView::Callable(Callable::Class(old(self).class_names().len() as usize)),
            ),
            static_fields@.len() == 0 && (forall|j: int| 0 <= j < methods@.len() ==> (#[trigger] methods@[j])@ is Function) && (
            forall|j: int| 0 <= j < static_methods@.len() ==> (#[trigger] static_methods@[j])@ is Function) ==> r is Ok,
            class_effect(
                *old(self),
                name@,
                statements_view(methods@),
                statements_view(static_fields@),
                statements_view(static_methods@),
                *final(self),
                r,
            ),
        decreases old(self).budget(), 2int,
    {
        let ghost mv = statements_view(methods@);
        let ghost sv = statements_view(static_methods@);
        let ghost fv = statements_view(static_fields@);
        let ghost frame = old(self).environment;
        proof {
            crate::ast::statement::lemma_statements_view_index(methods@);
            crate::ast::statement::lemma_statements_view_index(static_methods@);
            crate::ast::statement::lemma_statements_view_index(static_fields@);
        }
        let mut method_functions: Vec<Function<'a>> = Vec::new();
        let init_name = String::from_str("init");
        let mut i: usize = 0;
        while i < methods.len()
            invariant
                frame == old(self).environment,
                *self == *old(self),
                old(self).advanced(self),
                init_name@ == "init"@,
                mv == statements_view(methods@),
                mv.len() == methods@.len(),
                forall|j: int| 0 <= j < methods@.len() ==> #[trigger] mv[j] == methods@[j]@,
                i <= methods@.len(),
                method_functions@.len() == i,
                forall|j: int| 0 <= j < i ==> (#[trigger] method_functions@[j])@ == method_view(mv[j], frame, true),
                forall|j: int| 0 <= j < i ==> (#[trigger] mv[j]) is Function,
            decreases methods@.len() - i,
        {
            let is_initializer = match &methods[i] {
                Statement::Function { name, .. } => name.lexeme == init_name,
                _ => false,
            };
            match Function::from_statement(&methods[i], self.environment, is_initializer) {
                Ok(f) => {
                    proof {
                        assert(mv[i as int] == methods@[i as int]@);
                        assert(mv[i as int] is Function);
                        assert(f@ == method_view(mv[i as int], frame, true));
                    }
                    method_functions.push(f);
                },
                Err(e) => {
                    proof {
                        assert(!(mv[i as int] is Function));
                        assert(!all_functions(mv));
                    }
                    return Err(e);
                },
            }
            i = i + 1;
        }
        let mut static_method_functions: Vec<Function<'a>> = Vec::new();
        let mut i: usize = 0;
        while i < static_methods.len()
            invariant
                frame == old(self).environment,
                *self == *old(self),
                old(self).advanced(self),
                mv == statements_view(methods@),
                sv == statements_view(static_methods@),
                sv.len() == static_methods@.len(),
                forall|j: int| 0 <= j < static_methods@.len() ==> #[trigger] sv[j] == static_methods@[j]@,
                all_functions(mv),
                method_functions@.len() == methods@.len(),
                forall|j: int| 0 <= j < methods@.len() ==> (#[trigger] method_functions@[j])@ == method_view(mv[j], frame, true),
                i <= static_methods@.len(),
                static_method_functions@.len() == i,
                forall|j: int| 0 <= j < i ==> (#[trigger] static_method_functions@[j])@ == method_view(sv[j], frame, false),
                forall|j: int| 0 <= j < i ==> (#[trigger] sv[j]) is Function,
            decreases static_methods@.len() - i,
        {
            match Function::from_statement(&static_methods[i], self.environment, false) {
                Ok(f) => {
                    static_method_functions.push(f);
                },
                Err(e) => {
                    proof {
                        assert(!(sv[i as int] is Function));
                        assert(!all_functions(sv));
                    }
                    return Err(e);
                },
            }
            i = i + 1;
        }
        assert(all_functions(sv));
        assert(functions_view(method_functions@) =~= method_views(mv, frame, true));
        assert(functions_view(static_method_functions@) =~= method_views(sv, frame, false));
        let fields = match self.evaluate_static_fields(static_fields) {
            Ok(fields) => fields,
            Err(e) => {
                proof {
                    lemma_kept_outside(*old(self), *self, old(self).current());
                }
                return Err(e);
            },
        };
        let ghost picked = choose|states: Seq<Interpreter<'a>>, outcomes: Seq<Result<Value, ControlFlow>>|
            #[trigger] argument_frames(*old(self), states, outcomes) && arguments_run(field_initializers(fv), states, outcomes)
                && states.last() == *self && !(outcomes.len() > 0 && outcomes.last() is Err);
        let class = Class::new(name.lexeme.clone(), method_functions, fields, static_method_functions);
        let ghost declared_from = *self;
        let index = self.classes.len();
        let ghost before = self.classes@;
        let ghost cname = class.name@;
        let ghost cmethods = functions_view(class.methods@);
        let ghost cstatics = functions_view(class.static_methods@);
        self.classes.push(class);
        assert(self.class_methods(index as int) == cmethods);
        assert(self.class_static_methods(index as int) == cstatics);
        assert(self.class_names() =~= before.map_values(|c: Class<'a>| c.name@).push(cname));
        assert forall|k: int| 0 <= k < self.classes@.len() implies (#[trigger] self.classes@[k]).static_fields.wf() by {
            if k < index {
                assert(self.classes@[k] == before[k]);
            }
        }
        self.environments.define(self.environment, name.lexeme.clone(), Value::Callable(Callable::Class(index)));
        proof {
            assert(old(self).advanced(&declared_from));
            lemma_kept_outside(*old(self), declared_from, old(self).current());
            assert forall|k: int| 0 <= k < declared_from.scopes().count() && k != old(self).current() implies #[trigger] self.scopes().scope(k).dom()
                == declared_from.scopes().scope(k).dom() by {
                assert(self.environments.scope(k) == declared_from.environments.scope(k));
            }
            lemma_kept_chain(*old(self), declared_from, *self, old(self).current());
            assert(class_declared(declared_from, name@, mv, sv, old(self).current(), *self));
            assert(argument_frames(*old(self), picked.0, picked.1));
        }
        Ok(Value::Nil)
    }

    /// `return`: leaves the function with the value (nil without one).
    pub fn visit_return_statement(&mut self, keyword: &'a Token, value: &'a Option<Expr>) -> (r: Result<Value, ControlFlow>)
        requires
            old(self).wf(),
        ensures
            names_kept_outside(*old(self), *final(self), old(self).current()),
            old(self).advanced(final(self)),
            r is Err,
            value is None ==> r == Err::<Value, ControlFlow>(ControlFlow::Return(Value::Nil)) && *final(self) == *old(self),
            value matches Some(v) ==> (pure_expr(v@) && expr_size(v@) <= old(self).budget() ==> r->Err_0@ == match pure_value(
                old(self).scopes(),
                old(self).current(),
                v@,
            ) {
                Ok(x) => ControlFlowView::Return(x),
                Err(e) => ControlFlowView::RuntimeError(e),
            }),
            value matches Some(v) ==> return_effect(*old(self), v@, *final(self), r),
        decreases old(self).budget(), 1int,
    {
        let return_value = match value {
            Some(value_expr) => {
                let value_result = self.visit_expression(value_expr);
                proof {
                    assert(expression_step(*old(self), value_expr@, *self, value_result));
                    assert(evaluation(*old(self), *self, value_result));
                }
                match value_result {
                    Ok(v) => v,
                    Err(e) => {
                        return Err(e);
                    },
                }
            },
            None => Value::Nil,
        };
        Err(ControlFlow::Return(return_value))
    }
}

} // verus!
