//! Classes: a name, methods, and static members.
use vstd::prelude::*;
use crate::runtime::value::{Callable, Value, ValueView};
use crate::runtime::error::{ControlFlow, ControlFlowView, RuntimeError, RuntimeErrorView};
use crate::runtime::environment::Environment;
use crate::runtime::function::{Function, FunctionView};
use crate::text::append_str;

verus! {

/// The views of functions.
pub open spec fn functions_view<'a>(fs: Seq<Function<'a>>) -> Seq<FunctionView> {
    fs.map_values(|f: Function<'a>| f@)
}

/// The position of the last function named `name`, which is the one a
/// lookup by name finds (a later definition replaces an earlier one).
pub open spec fn last_named(fs: Seq<FunctionView>, name: Seq<char>) -> Option<int>
    decreases fs.len(),
{
    if fs.len() == 0 {
        None
    } else if fs.last().name == name {
        Some(fs.len() - 1)
    } else {
        last_named(fs.drop_last(), name)
    }
}

/// What `last_named` finds lies within the functions and has the name.
pub proof fn lemma_last_named(fs: Seq<FunctionView>, name: Seq<char>)
    ensures
        last_named(fs, name) matches Some(i) ==> 0 <= i < fs.len() && fs[i].name == name,
    decreases fs.len(),
{
    if fs.len() > 0 {
        lemma_last_named(fs.drop_last(), name);
    }
}

/// Finds the last of `fs` named `name`.
fn find_named<'a>(fs: &Vec<Function<'a>>, name: &String) -> (r: Option<usize>)
    ensures
        match r {
            Some(j) => last_named(functions_view(fs@), name@) == Some(j as int) && j < fs@.len(),
            None => last_named(functions_view(fs@), name@) is None,
        },
{
    let ghost all = functions_view(fs@);
    proof {
        lemma_last_named(all, name@);
    }
    assert(all.subrange(0, fs@.len() as int) =~= all);
    let mut i = fs.len();
    while i > 0
        invariant
            i <= fs@.len(),
            all == functions_view(fs@),
            last_named(all, name@) == last_named(all.subrange(0, i as int), name@),
        decreases i,
    {
        assert(all.subrange(0, i as int).drop_last() =~= all.subrange(0, i - 1));
        assert(all.subrange(0, i as int).last() == fs@[i - 1]@);
        if fs[i - 1].name == *name {
            return Some(i - 1);
        }
        i = i - 1;
    }
    assert(all.subrange(0, 0) =~= Seq::<FunctionView>::empty());
    None
}

/// A class: its name, its methods, and its static fields and methods.
#[derive(Debug)]
pub struct Class<'a> {
    pub name: String,
    pub methods: Vec<Function<'a>>,
    pub static_fields: Environment,
    pub static_methods: Vec<Function<'a>>,
}

/// The error of reading a static member a class does not have.
pub open spec fn undefined_static(name: Seq<char>) -> ControlFlowView {
    ControlFlowView::RuntimeError(
        RuntimeErrorView { line: 0, message: "Undefined static property '"@ + name + "'."@ },
    )
}

impl<'a> Class<'a> {
    /// A class made of its parts.
    pub fn new(name: String, methods: Vec<Function<'a>>, static_fields: Environment, static_methods: Vec<Function<'a>>) -> (r: Self)
        ensures
            r.name == name,
            r.methods == methods,
            r.static_fields == static_fields,
            r.static_methods == static_methods,
    {
        Class { name, methods, static_fields, static_methods }
    }

    /// The method named `name` (the last one so named), if any.
    pub fn find_method(&self, name: &String) -> (r: Option<Function<'a>>)
        ensures
            match last_named(functions_view(self.methods@), name@) {
                Some(i) => r is Some && r->Some_0@ == self.methods@[i]@ && r->Some_0.body == self.methods@[i].body,
                None => r is None,
            },
    {
        proof {
            lemma_last_named(functions_view(self.methods@), name@);
        }
        match find_named(&self.methods, name) {
            Some(i) => Some(self.methods[i].copy()),
            None => None,
        }
    }

    /// The static method named `name` (the last one so named), if any.
    pub fn get_static_method(&self, name: &String) -> (r: Option<Function<'a>>)
        ensures
            match last_named(functions_view(self.static_methods@), name@) {
                Some(i) => r is Some && r->Some_0@ == self.static_methods@[i]@ && r->Some_0.body
                    == self.static_methods@[i].body,
                None => r is None,
            },
    {
        proof {
            lemma_last_named(functions_view(self.static_methods@), name@);
        }
        match find_named(&self.static_methods, name) {
            Some(i) => Some(self.static_methods[i].copy()),
            None => None,
        }
    }

    /// The static field named `name`, if any.
    pub fn get_static_field(&self, name: &String) -> (r: Option<Value>)
        requires
            self.static_fields.wf(),
        ensures
            match r {
                Some(v) => self.static_fields.bindings().dom().contains(name@) && self.static_fields.bindings()[name@]
                    == v@,
                None => !self.static_fields.bindings().dom().contains(name@),
            },
    {
        self.static_fields.lookup(name)
    }

    /// A static member: the static field named `name` if there is one, else
    /// the static method so named, added to `functions` and returned as a
    /// callable; an error if the class has neither.
    pub fn get(&self, name: &String, functions: &mut Vec<Function<'a>>) -> (r: Result<Value, ControlFlow>)
        requires
            self.static_fields.wf(),
        ensures
            self.static_fields.bindings().dom().contains(name@) ==> r is Ok && r->Ok_0@
                == self.static_fields.bindings()[name@] && final(functions)@ == old(functions)@,
            !self.static_fields.bindings().dom().contains(name@) ==> match last_named(
                functions_view(self.static_methods@),
                name@,
            ) {
                Some(i) => r is Ok && r->Ok_0@ == ValueView::Callable(Callable::Function(old(functions)@.len() as usize))
                    && functions_view(final(functions)@) == functions_view(old(functions)@).push(
                    self.static_methods@[i]@,
                ),
                None => r is Err && r->Err_0@ == undefined_static(name@) && final(functions)@ == old(functions)@,
            },
    {
        match self.get_static_field(name) {
            Some(v) => {
                return Ok(v);
            },
            None => {},
        }
        match self.get_static_method(name) {
            Some(m) => {
                let index = functions.len();
                functions.push(m);
                assert(functions_view(functions@) =~= functions_view(old(functions)@).push(
                    self.static_methods@[last_named(functions_view(self.static_methods@), name@)->Some_0]@,
                ));
                Ok(Value::Callable(Callable::Function(index)))
            },
            None => {
                let mut m = String::from_str("Undefined static property '");
                append_str(&mut m, name.as_str());
                append_str(&mut m, "'.");
                Err(ControlFlow::RuntimeError(RuntimeError::new(0, m)))
            },
        }
    }

    /// The number of arguments a call of the class takes: its initializer's
    /// parameters, or none without one.
    pub fn arity(&self) -> (r: usize)
        ensures
            match last_named(functions_view(self.methods@), "init"@) {
                Some(i) => r == self.methods@[i]@.params.len(),
                None => r == 0,
            },
    {
        let init = String::from_str("init");
        match self.find_method(&init) {
            Some(f) => f.arity(),
            None => 0,
        }
    }

    /// The class's name.
    pub fn name(&self) -> (r: &str)
        ensures
            r@ == self.name@,
    {
        self.name.as_str()
    }

    /// How the class prints: `<class name>`.
    pub fn to_string(&self) -> (r: String)
        ensures
            r@ == "<class "@ + self.name@ + ">"@,
    {
        let mut s = String::from_str("<class ");
        append_str(&mut s, self.name.as_str());
        append_str(&mut s, ">");
        s
    }
}

} // verus!
