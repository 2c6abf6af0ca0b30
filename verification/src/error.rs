//! Parse errors: the line where parsing failed and a human-readable message.

use vstd::prelude::*;

use crate::text::{decimal, decimal_string, push_str};

verus! {

/// A parse failure: the failing line (from 1) and an explanation.
#[derive(Debug, Clone, PartialEq, Eq)]
pub struct ParseError {
    line: usize,
    message: String,
}

/// Model of a parse failure.
pub struct ErrV {
    pub line: nat,
    pub message: Seq<char>,
}

impl View for ParseError {
    type V = ErrV;

    closed spec fn view(&self) -> ErrV {
        ErrV { line: self.line as nat, message: self.message@ }
    }
}

/// How a parse failure reads: `第 {line} 行：{message}`.
pub open spec fn error_text(e: ErrV) -> Seq<char> {
    "第 "@ + decimal(e.line) + " 行："@ + e.message
}

impl ParseError {
    /// A failure at `line` with `message`.
    pub fn new(line: usize, message: String) -> (r: ParseError)
        ensures
            r@ == (ErrV { line: line as nat, message: message@ }),
    {
        ParseError { line, message }
    }

    /// The failing line, from 1.
    pub fn line(&self) -> (r: usize)
        ensures
            r == self@.line,
    {
        self.line
    }

    /// The explanation, without the line number.
    pub fn message(&self) -> (r: &str)
        ensures
            r@ == self@.message,
    {
        self.message.as_str()
    }

    /// The failure as one line of text: the line number, then the message.
    pub fn to_string(&self) -> (r: String)
        ensures
            r@ == error_text(self@),
    {
        let mut r = String::new();
        push_str(&mut r, "第 ");
        let n = decimal_string(self.line);
        push_str(&mut r, n.as_str());
        push_str(&mut r, " 行：");
        push_str(&mut r, self.message.as_str());
        r
    }
}

} // verus!
