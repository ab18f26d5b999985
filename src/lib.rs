//! An integer arithmetic calculator: text is lexed into tokens, the tokens are
//! parsed by precedence climbing into an expression tree, and the tree is
//! evaluated with checked 64-bit arithmetic.

pub mod canonical;
pub mod expr;
pub mod lexer;
pub mod parser;

use vstd::prelude::*;
use crate::expr::{eval, eval_error_text, value, EvalError};
use crate::lexer::{lex, lex_spec};
use crate::parser::{parse, parse_error_text, parse_spec, ParseError};

verus! {

/// Why a line has no value.
#[derive(Clone, Copy, Debug, PartialEq, Eq, Structural)]
pub enum CalcError {
    Parse(ParseError),
    Eval(EvalError),
}

impl CalcError {
    /// The diagnostic text of the fault.
    pub fn message(&self) -> (r: &'static str)
        ensures
            r@ == (match *self {
                CalcError::Parse(p) => parse_error_text(p),
                CalcError::Eval(v) => eval_error_text(v),
            }),
    {
        match self {
            CalcError::Parse(p) => p.message(),
            CalcError::Eval(v) => v.message(),
        }
    }
}

/// What a line of text evaluates to.
pub open spec fn line_value(line: Seq<char>) -> Result<i64, CalcError> {
    match parse_spec(lex_spec(line)) {
        Err(p) => Err(CalcError::Parse(p)),
        Ok(e) => match value(e) {
            Err(v) => Err(CalcError::Eval(v)),
            Ok(n) => Ok(n),
        },
    }
}

/// Lexes, parses and evaluates one line of text.
pub fn evaluate(line: &str) -> (r: Result<i64, CalcError>)
    ensures
        r == line_value(line@),
{
    let toks = lex(line);
    match parse(&toks) {
        Err(p) => Err(CalcError::Parse(p)),
        Ok(e) => match eval(e) {
            Err(v) => Err(CalcError::Eval(v)),
            Ok(n) => Ok(n),
        },
    }
}

} // verus!
