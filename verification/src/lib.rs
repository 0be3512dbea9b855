//! Front end and evaluator for a small expression-oriented scripting
//! language: source text is parsed into an abstract syntax tree, which is
//! then executed against a lexically scoped environment, producing a tagged
//! runtime value.

use vstd::prelude::*;
use vstd::string::StrSliceExecFns;

pub mod block;
pub mod chars;
pub mod env;
pub mod error;
pub mod eval;
pub mod expression;
pub mod grammar;
pub mod interner;
pub mod laws;
pub mod statement;
pub mod utils;
pub mod val;

pub use block::Block;
pub use env::Env;
pub use error::Error;
pub use expression::{BindingUsage, Expression, Float, Number, Op, UnaryOp};
pub use interner::StringInterner;
pub use statement::{BindingDef, FunctionDef, Statement};
pub use val::{Decimal, Val};

use crate::grammar::{spec_parse, spec_stmt_seq};
use crate::statement::{sequence, stmts_view, SpecStmt};

verus! {

/// A parsed program: one or more statements covering the whole input.
#[derive(Debug, PartialEq)]
pub struct Parse(pub Vec<Statement>);

impl View for Parse {
    type V = Seq<SpecStmt>;

    open spec fn view(&self) -> Seq<SpecStmt> {
        stmts_view(self.0@)
    }
}

/// Parses a whole program. Fails when the grammar cannot consume the
/// entire input, or when the input yields zero statements.
pub fn parse(s: &str) -> (r: Result<Parse, Error>)
    ensures
        match r {
            Ok(p) => spec_parse(s@) == Some(p@),
            Err(e) => {
                &&& spec_parse(s@) is None
                &&& e == (if spec_stmt_seq(s@).1.len() == 0 {
                    Error::EmptyProgram
                } else {
                    Error::UnconsumedInput
                })
            },
        },
{
    let (rem, statements) = sequence(s);
    proof {
        crate::statement::lemma_stmts_view(statements@);
    }
    if statements.len() == 0 {
        Err(Error::EmptyProgram)
    } else if rem.unicode_len() != 0 {
        Err(Error::UnconsumedInput)
    } else {
        Ok(Parse(statements))
    }
}

} // verus!
