//! Errors found while parsing or resolving.
use vstd::prelude::*;
use crate::text::{decimal_text, usize_to_decimal};

verus! {

/// A syntax or scope error, with the line it was found on.
#[derive(Debug, Clone, PartialEq)]
pub struct ParseError {
    pub line: usize,
    pub message: String,
}

/// The mathematical view of a parse error.
pub struct ParseErrorView {
    pub line: usize,
    pub message: Seq<char>,
}

impl View for ParseError {
    type V = ParseErrorView;

    open spec fn view(&self) -> ParseErrorView {
        ParseErrorView { line: self.line, message: self.message@ }
    }
}

/// The views of a sequence of parse errors.
pub open spec fn parse_errors_view(es: Seq<ParseError>) -> Seq<ParseErrorView> {
    es.map_values(|e: ParseError| e@)
}

/// How an error is reported: `[line N] message`.
pub open spec fn report_text(e: ParseErrorView) -> Seq<char> {
    "[line "@ + decimal_text(e.line as int) + "] "@ + e.message
}

impl ParseError {
    /// An error on a line with a message.
    pub fn new(line: usize, message: String) -> (r: Self)
        ensures
            r.line == line,
            r.message == message,
    {
        ParseError { line, message }
    }

    /// The error as it is reported.
    pub fn to_string(&self) -> (r: String)
        ensures
            r@ == report_text(self@),
    {
        let mut r = String::from_str("[line ");
        let n = usize_to_decimal(self.line);
        r.append(n.as_str());
        r.append("] ");
        r.append(self.message.as_str());
        r
    }
}

} // verus!
