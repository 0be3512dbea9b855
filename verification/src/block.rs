//! Block expressions: an ordered sequence of statements that evaluates to
//! the value of its last statement, or Unit if empty.

use vstd::prelude::*;
use vstd::string::StrSliceExecFns;

use crate::chars::CharClass;
use crate::error::{Error, SpecError};
use crate::grammar::spec_block;
use crate::statement::{lemma_stmts_view, sequence, stmts_view, SpecStmt, Statement};
use crate::utils::{extract_semicolon, extract_whitespace, lemma_take_len};

verus! {

/// A block: `{ statement* }`.
#[derive(Debug, PartialEq)]
pub struct Block {
    pub statements: Vec<Statement>,
}

impl View for Block {
    type V = Seq<SpecStmt>;

    open spec fn view(&self) -> Seq<SpecStmt>
        decreases self,
    {
        stmts_view(self.statements@)
    }
}

impl Block {
    /// Parses a block: `{` statements `}`, with an optional trailing
    /// semicolon. The error names the missing delimiter: the opening brace
    /// when the input does not start a block, the closing brace otherwise.
    pub fn new(s: &str) -> (r: Result<(&str, Block), Error>)
        ensures
            match r {
                Ok((rem, b)) => spec_block(s@) == Some((rem@, b@)),
                Err(e) => {
                    let t = crate::grammar::skip_ws(s@);
                    &&& spec_block(s@) is None
                    &&& e@ == (if t.len() == 0 || t[0] != '{' {
                        SpecError::ExpectedTag("{"@)
                    } else {
                        SpecError::ExpectedTag("}"@)
                    })
                },
            },
        decreases s@.len(), 3int,
    {
        let (t, _) = extract_whitespace(s);
        proof {
            lemma_take_len(CharClass::Whitespace, s@);
        }
        if t.unicode_len() == 0 || t.get_char(0) != '{' {
            return Err(Error::ExpectedTag("{".to_owned()));
        }
        let inner = t.substring_char(1, t.unicode_len());
        let (r1, statements) = sequence(inner);
        let (r2, _) = extract_whitespace(r1);
        if r2.unicode_len() == 0 || r2.get_char(0) != '}' {
            return Err(Error::ExpectedTag("}".to_owned()));
        }
        let after = r2.substring_char(1, r2.unicode_len());
        let (rem, _) = extract_semicolon(after);
        Ok((rem, Block { statements }))
    }

    /// A copy with the same image.
    #[verifier::loop_isolation(false)]
    pub fn dup(&self) -> (r: Block)
        ensures
            r@ == self@,
        decreases self,
    {
        let mut out: Vec<Statement> = Vec::new();
        let n = self.statements.len();
        let mut i: usize = 0;
        while i < n
            invariant
                i <= n,
                out@.len() == i,
                forall|j: int| 0 <= j < i ==> #[trigger] out@[j]@ == self.statements@[j]@,
            decreases n - i,
        {
            let item: &Statement = &self.statements[i];
            proof {
                assert(decreases_to!(*self => self.statements@[i as int]));
            }
            out.push(item.dup());
            i = i + 1;
        }
        let r = Block { statements: out };
        proof {
            lemma_stmts_view(out@);
            lemma_stmts_view(self.statements@);
            assert forall|k: int| 0 <= k < out@.len() implies stmts_view(out@)[k] == stmts_view(
                self.statements@,
            )[k] by {
                assert(out@[k]@ == self.statements@[k]@);
            }
            assert(stmts_view(out@) =~= stmts_view(self.statements@));
        }
        r
    }
}

} // verus!
