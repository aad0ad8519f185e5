//! Errors, their source positions and how they read.
use vstd::prelude::*;
use vstd::string::StringExecFns;
use crate::text::{format_i64, signed_decimal};

verus! {

/// A position in the source text.
#[derive(Debug, Clone, Copy, PartialEq, Eq, Structural)]
pub struct Loc {
    pub line: i32,
    pub col: i32,
}

/// What an error consists of, as a mathematical value.
pub struct ErrorView {
    pub message: Seq<char>,
    pub loc: Option<Loc>,
}

/// An error reported by the type checker or the evaluator.
#[derive(Debug)]
pub struct BestError {
    pub message: String,
    pub loc: Option<Loc>,
}

impl View for BestError {
    type V = ErrorView;

    open spec fn view(&self) -> ErrorView {
        ErrorView { message: self.message@, loc: self.loc }
    }
}

/// The error with the given message and no position.
pub open spec fn err_msg(message: Seq<char>) -> ErrorView {
    ErrorView { message, loc: None }
}

/// The error with the given message at the given position.
pub open spec fn err_at(message: Seq<char>, loc: Loc) -> ErrorView {
    ErrorView { message, loc: Some(loc) }
}

impl BestError {
    /// An error with no source position.
    pub fn new(message: &str) -> (e: Self)
        ensures
            e@ == err_msg(message@),
    {
        BestError { message: message.to_owned(), loc: None }
    }

    /// An error at the given source position.
    pub fn at(message: &str, loc: &Loc) -> (e: Self)
        ensures
            e@ == err_at(message@, *loc),
    {
        BestError { message: message.to_owned(), loc: Some(*loc) }
    }
}

/// How a position reads in a message: `line L, column C`.
pub open spec fn loc_text(loc: Loc) -> Seq<char> {
    "line "@ + signed_decimal(loc.line as int) + ", column "@ + signed_decimal(loc.col as int)
}

/// How an error reads: `error at <position>: <message>`, or `error: <message>`
/// when it has no position.
pub open spec fn error_text(e: ErrorView) -> Seq<char> {
    match e.loc {
        Some(loc) => "error at "@ + loc_text(loc) + ": "@ + e.message,
        None => "error: "@ + e.message,
    }
}

impl Loc {
    /// The text of this position, as it appears in error messages.
    pub fn describe(&self) -> (s: String)
        ensures
            s@ == loc_text(*self),
    {
        let mut s = String::from_str("line ");
        s.append(format_i64(self.line as i64).as_str());
        s.append(", column ");
        s.append(format_i64(self.col as i64).as_str());
        s
    }
}

impl BestError {
    /// The text of this error, as it is reported to the user.
    pub fn describe(&self) -> (s: String)
        ensures
            s@ == error_text(self@),
    {
        match &self.loc {
            Some(loc) => {
                let mut s = String::from_str("error at ");
                s.append(loc.describe().as_str());
                s.append(": ");
                s.append(self.message.as_str());
                s
            },
            None => {
                let mut s = String::from_str("error: ");
                s.append(self.message.as_str());
                s
            },
        }
    }
}

} // verus!
