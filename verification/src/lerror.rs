//! Diagnostics: what the scanner and the parser report when the input is not
//! what they can accept.

use vstd::prelude::*;

verus! {

/// The mathematical value of a diagnostic: its message and the line of the
/// source it points at.
pub struct Diagnostic {
    pub message: Seq<char>,
    pub line: nat,
}

/// A lexical error: the scanner met text that is no token.
#[derive(Debug, PartialEq, Eq)]
pub struct LoxError {
    /// What was wrong.
    pub msg: String,
    /// The line, counted from 1, on which it was found.
    pub line_no: usize,
}

impl View for LoxError {
    type V = Diagnostic;

    open spec fn view(&self) -> Diagnostic {
        Diagnostic { message: self.msg@, line: self.line_no as nat }
    }
}

impl Clone for LoxError {
    /// An independent copy, equal to the value copied.
    fn clone(&self) -> (r: Self)
        ensures
            r == *self,
    {
        LoxError { msg: self.msg.clone(), line_no: self.line_no }
    }
}

/// A parse error: the tokens at some point are not an expression.
#[derive(Debug, PartialEq, Eq)]
pub struct ParseError {
    /// What was expected.
    pub msg: String,
    /// The line, counted from 1, of the token that was found instead.
    pub line_no: usize,
}

impl View for ParseError {
    type V = Diagnostic;

    open spec fn view(&self) -> Diagnostic {
        Diagnostic { message: self.msg@, line: self.line_no as nat }
    }
}

impl Clone for ParseError {
    /// An independent copy, equal to the value copied.
    fn clone(&self) -> (r: Self)
        ensures
            r == *self,
    {
        ParseError { msg: self.msg.clone(), line_no: self.line_no }
    }
}

} // verus!
