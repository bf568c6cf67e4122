//! Errors at run time, and the ways evaluation leaves a statement early.
use vstd::prelude::*;
use crate::runtime::value::{Value, ValueView};
use crate::text::{append_str, usize_to_decimal, decimal_text};

verus! {

/// An error raised while running a program, at a source line.
#[derive(Debug)]
pub struct RuntimeError {
    pub line: usize,
    pub message: String,
}

/// The mathematical view of a runtime error.
pub struct RuntimeErrorView {
    pub line: usize,
    pub message: Seq<char>,
}

impl View for RuntimeError {
    type V = RuntimeErrorView;

    open spec fn view(&self) -> RuntimeErrorView {
        RuntimeErrorView { line: self.line, message: self.message@ }
    }
}

/// How a runtime error is reported: its message, then its line.
pub open spec fn runtime_error_text(e: RuntimeErrorView) -> Seq<char> {
    e.message + "\n[line "@ + decimal_text(e.line as int) + "]"@
}

impl RuntimeError {
    /// An error at a line with a message.
    pub fn new(line: usize, message: String) -> (r: Self)
        ensures
            r.line == line,
            r.message == message,
    {
        RuntimeError { line, message }
    }

    /// The report of the error: `<message>` and, on the next line,
    /// `[line <n>]`.
    pub fn to_string(&self) -> (r: String)
        ensures
            r@ == runtime_error_text(self@),
    {
        let mut s = self.message.clone();
        append_str(&mut s, "\n[line ");
        let n = usize_to_decimal(self.line);
        append_str(&mut s, n.as_str());
        append_str(&mut s, "]");
        s
    }
}

/// Why evaluation left a statement before its end: a `return` with its
/// value, or an error.
#[derive(Debug)]
pub enum ControlFlow {
    Return(Value),
    RuntimeError(RuntimeError),
}

/// The mathematical view of a control-flow outcome.
pub enum ControlFlowView {
    Return(ValueView),
    RuntimeError(RuntimeErrorView),
}

impl View for ControlFlow {
    type V = ControlFlowView;

    open spec fn view(&self) -> ControlFlowView {
        match self {
            ControlFlow::Return(v) => ControlFlowView::Return(v@),
            ControlFlow::RuntimeError(e) => ControlFlowView::RuntimeError(e@),
        }
    }
}

} // verus!
