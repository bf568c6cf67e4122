//! Instances of classes and their fields.
use vstd::prelude::*;
use crate::lexer::token::Token;
use crate::runtime::value::{Value, ValueView};
use crate::runtime::error::ControlFlow;
use crate::runtime::environment::Environment;

verus! {

/// An instance: its class (by index) and its fields.
#[derive(Debug)]
pub struct Instance {
    pub class: usize,
    pub fields: Environment,
}

impl Instance {
    /// An instance of class `class` with no fields.
    pub fn new(class: usize) -> (r: Self)
        ensures
            r.class == class,
            r.fields.wf(),
            r.fields.bindings() == Map::<Seq<char>, ValueView>::empty(),
    {
        Instance { class, fields: Environment::new(None) }
    }

    /// The field named `name`, if the instance has it.
    pub fn field(&self, name: &String) -> (r: Option<Value>)
        requires
            self.fields.wf(),
        ensures
            match r {
                Some(v) => self.fields.bindings().dom().contains(name@) && self.fields.bindings()[name@] == v@,
                None => !self.fields.bindings().dom().contains(name@),
            },
    {
        self.fields.lookup(name)
    }

    /// Sets the field named by `name` to `value`.
    pub fn set(&mut self, name: &Token, value: Value) -> (r: Result<(), ControlFlow>)
        requires
            old(self).fields.wf(),
        ensures
            r is Ok,
            final(self).class == old(self).class,
            final(self).fields.wf(),
            final(self).fields.bindings() == old(self).fields.bindings().insert(name.lexeme@, value@),
    {
        self.fields.define(name.lexeme.clone(), value);
        Ok(())
    }
}

} // verus!
