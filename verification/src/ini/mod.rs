//! TunerStudio ECU-definition INI support (the Speeduino subset): the
//! `#define`/`#if` preprocessor, the value lexer, `{ expression }` parsing,
//! the parser of each section, and the whole definition read from its text.

use vstd::prelude::*;
use vstd::string::StringExecFns;
use crate::text::{append_chars, decimal, decimal_chars};

pub mod constants;
pub mod curves;
pub mod definition;
pub mod expr;
pub mod lex;
pub mod model;
pub mod preprocess;
pub mod sections;
pub mod tables;
pub mod telemetry;
pub mod ui;

verus! {

#[derive(Debug)]
pub enum Error {
    /// A problem on a source line (1-based; 0 for the file as a whole).
    Parse(u32, String),
    /// An expression could not be evaluated.
    Eval(String),
}

impl Error {
    pub fn at(num: u32, msg: String) -> (e: Error)
        ensures
            e == Error::Parse(num, msg),
    {
        Error::Parse(num, msg)
    }

    pub fn eval(msg: String) -> (e: Error)
        ensures
            e == Error::Eval(msg),
    {
        Error::Eval(msg)
    }
}

/// The text an error displays: `line N: message` for a line's error.
pub open spec fn error_text(e: Error) -> Seq<char> {
    match e {
        Error::Parse(n, m) => "line "@ + decimal(n as nat) + ": "@ + m@,
        Error::Eval(m) => m@,
    }
}

impl Error {
    pub fn message(&self) -> (s: String)
        ensures
            s@ == error_text(*self),
    {
        match self {
            Error::Parse(n, m) => {
                let mut s = String::from_str("line ");
                append_chars(&mut s, &decimal_chars(*n as u64));
                s.append(": ");
                s.append(m.as_str());
                s
            },
            Error::Eval(m) => m.clone(),
        }
    }
}

/// A parse error reported on line `num`.
pub open spec fn is_error_at(e: Error, num: u32) -> bool {
    e matches Error::Parse(n, _) && n == num
}

} // verus!
