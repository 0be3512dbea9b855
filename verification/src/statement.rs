//! Statements: binding definitions, function definitions, and bare
//! expressions.

use vstd::prelude::*;
use vstd::string::StrSliceExecFns;

use crate::chars::CharClass;
use crate::error::{Error, SpecError};
use crate::expression::{Expression, SpecExpr};
use crate::grammar::{spec_binding_def, spec_function_def, spec_stmt, spec_stmt_seq};
use crate::utils::{
    extract_ident, extract_params, extract_semicolon, extract_whitespace,
    extract_whitespace_restrict, lemma_take_len, strings_view, tag, take_len,
};

verus! {

/// A binding definition: `val name = expression;`.
#[derive(Debug, PartialEq)]
pub struct BindingDef {
    pub name: String,
    pub val: Expression,
}

/// A function definition: `fn name(params) body`.
#[derive(Debug, PartialEq)]
pub struct FunctionDef {
    pub name: String,
    pub params: Vec<String>,
    pub body: Box<Statement>,
}

/// A statement.
#[derive(Debug, PartialEq)]
pub enum Statement {
    BindingDef(BindingDef),
    FunctionDef(FunctionDef),
    Expression(Expression),
}

/// The images of a sequence of statements.
pub open spec fn stmts_view(stmts: Seq<Statement>) -> Seq<SpecStmt>
    decreases stmts via stmts_view_decreases
{
    if stmts.len() == 0 {
        Seq::empty()
    } else {
        stmts_view(stmts.drop_last()).push(stmts.last()@)
    }
}

#[via_fn]
proof fn stmts_view_decreases(stmts: Seq<Statement>) {
    if stmts.len() > 0 {
        vstd::seq::axiom_seq_subrange_decreases(stmts, 0, stmts.len() - 1);
        vstd::seq::axiom_seq_index_decreases(stmts, stmts.len() - 1);
    }
}

/// Each image in `stmts_view` is the image of the statement at that index.
pub proof fn lemma_stmts_view(stmts: Seq<Statement>)
    ensures
        stmts_view(stmts).len() == stmts.len(),
        forall|i: int| 0 <= i < stmts.len() ==> stmts_view(stmts)[i] == #[trigger] stmts[i]@,
    decreases stmts.len(),
{
    if stmts.len() > 0 {
        lemma_stmts_view(stmts.drop_last());
        assert(stmts_view(stmts) == stmts_view(stmts.drop_last()).push(stmts.last()@));
        assert forall|i: int| 0 <= i < stmts.len() implies stmts_view(stmts)[i] == #[trigger] stmts[i]@ by {
            if i < stmts.len() - 1 {
                assert(stmts.drop_last()[i] == stmts[i]);
                assert(stmts_view(stmts)[i] == stmts_view(stmts.drop_last())[i]);
            } else {
                assert(stmts[i] == stmts.last());
            }
        }
    }
}

/// Spec-level image of a [`Statement`].
#[verifier::ext_equal]
pub enum SpecStmt {
    BindingDef { name: Seq<char>, val: SpecExpr },
    FunctionDef { name: Seq<char>, params: Seq<Seq<char>>, body: Box<SpecStmt> },
    Expression(SpecExpr),
}

impl View for Statement {
    type V = SpecStmt;

    open spec fn view(&self) -> SpecStmt
        decreases self,
    {
        match self {
            Statement::BindingDef(b) => SpecStmt::BindingDef { name: b.name@, val: b.val@ },
            Statement::FunctionDef(f) => SpecStmt::FunctionDef {
                name: f.name@,
                params: Seq::new(f.params@.len(), |i: int| f.params@[i]@),
                body: Box::new((*f.body)@),
            },
            Statement::Expression(e) => SpecStmt::Expression(e@),
        }
    }
}

impl Statement {
    /// A copy with the same image.
    #[verifier::loop_isolation(false)]
    pub fn dup(&self) -> (r: Statement)
        ensures
            r@ == self@,
        decreases self,
    {
        match self {
            Statement::BindingDef(b) => Statement::BindingDef(
                BindingDef { name: b.name.clone(), val: b.val.dup() },
            ),
            Statement::FunctionDef(f) => {
                let mut ps: Vec<String> = Vec::new();
                let n = f.params.len();
                let mut i: usize = 0;
                while i < n
                    invariant
                        i <= n,
                        ps@.len() == i,
                        forall|j: int| 0 <= j < i ==> #[trigger] ps@[j]@ == f.params@[j]@,
                    decreases n - i,
                {
                    ps.push(f.params[i].clone());
                    i = i + 1;
                }
                let r = Statement::FunctionDef(
                    FunctionDef { name: f.name.clone(), params: ps, body: Box::new(f.body.dup()) },
                );
                proof {
                    assert(Seq::new(ps@.len(), |i: int| ps@[i]@) =~= Seq::new(
                        f.params@.len(),
                        |i: int| f.params@[i]@,
                    ));
                }
                r
            },
            Statement::Expression(e) => Statement::Expression(e.dup()),
        }
    }
}

/// Applies the statement parser repeatedly until it fails, consuming
/// whitespace and an optional separating semicolon after each statement.
#[verifier::loop_isolation(false)]
pub fn sequence(s: &str) -> (r: (&str, Vec<Statement>))
    ensures
        spec_stmt_seq(s@) == (r.0@, stmts_view(r.1@)),
    decreases s@.len(), 11int,
{
    match Statement::new(s) {
        Err(_) => {
            let out: Vec<Statement> = Vec::new();
            proof {
                assert(stmts_view(out@) =~= Seq::<SpecStmt>::empty());
            }
            (s, out)
        },
        Ok((r1, st)) => {
            let (r1b, _) = extract_whitespace(r1);
            let (r2, _) = extract_semicolon(r1b);
            let ghost stv = st@;
            if r2.unicode_len() < s.unicode_len() {
                let (r3, rest) = sequence(r2);
                let ghost restv = rest@;
                let mut out = rest;
                out.insert(0, st);
                proof {
                    lemma_stmts_view(out@);
                    lemma_stmts_view(restv);
                    assert forall|k: int| 0 <= k < out@.len() implies stmts_view(out@)[k] == (seq![
                        stv,
                    ] + stmts_view(restv))[k] by {
                        assert(stmts_view(out@)[k] == out@[k]@);
                        if k > 0 {
                            assert(out@[k] == restv[k - 1]);
                            assert(stmts_view(restv)[k - 1] == restv[k - 1]@);
                        } else {
                            assert(out@[0]@ == stv);
                        }
                    }
                    assert(stmts_view(out@) =~= seq![stv] + stmts_view(restv));
                }
                (r3, out)
            } else {
                let mut out: Vec<Statement> = Vec::new();
                out.push(st);
                proof {
                    lemma_stmts_view(out@);
                    assert(stmts_view(out@) =~= seq![stv]);
                }
                (r2, out)
            }
        },
    }
}

impl Statement {
    /// Parses a statement: a binding definition, a function definition, or
    /// a bare expression, whichever matches first.
    pub fn new(s: &str) -> (r: Result<(&str, Statement), Error>)
        ensures
            match r {
                Ok((rem, st)) => spec_stmt(s@) == Some((rem@, st@)),
                Err(_) => spec_stmt(s@) is None,
            },
        decreases s@.len(), 10int,
    {
        match BindingDef::new(s) {
            Ok((rem, bd)) => {
                return Ok((rem, Statement::BindingDef(bd)));
            },
            Err(_) => {},
        }
        match FunctionDef::new(s) {
            Ok((rem, fd)) => {
                return Ok((rem, Statement::FunctionDef(fd)));
            },
            Err(_) => {},
        }
        match Expression::new(s) {
            Ok((rem, e)) => Ok((rem, Statement::Expression(e))),
            Err(e) => Err(e),
        }
    }
}

impl BindingDef {
    /// Parses a binding definition: `val`, at least one space, a name,
    /// `=`, an initializer, and an optional terminating semicolon. An
    /// identifier merely prefixed by `val` is not a binding definition:
    /// when the keyword matches but no space or tab follows, the error
    /// says so.
    pub fn new(s: &str) -> (r: Result<(&str, BindingDef), Error>)
        ensures
            match r {
                Ok((rem, bd)) => spec_binding_def(s@) == Some(
                    (rem@, SpecStmt::BindingDef { name: bd.name@, val: bd.val@ }),
                ),
                Err(e) => {
                    let t = crate::grammar::skip_ws(s@);
                    &&& spec_binding_def(s@) is None
                    &&& (crate::utils::tag_matches(seq!['v', 'a', 'l'], t) && take_len(
                        CharClass::SpaceTab,
                        t.subrange(3, t.len() as int),
                    ) == 0) ==> e == Error::ExpectedWhitespace
                },
            },
        decreases s@.len(), 9int,
    {
        let (t, _) = extract_whitespace(s);
        proof {
            lemma_take_len(CharClass::Whitespace, s@);
            reveal_strlit("val");
            assert("val"@ =~= seq!['v', 'a', 'l']);
        }
        let r1 = match tag("val", t) {
            Ok(rem) => rem,
            Err(e) => {
                return Err(e);
            },
        };
        let (r2, _) = match extract_whitespace_restrict(r1) {
            Ok(p) => p,
            Err(e) => {
                return Err(e);
            },
        };
        if r2.unicode_len() > s.unicode_len() {
            return Err(Error::ExpectedIdentifier);
        }
        let (r3a, name) = match extract_ident(r2) {
            Ok(p) => p,
            Err(e) => {
                return Err(e);
            },
        };
        let (r3, _) = extract_whitespace(r3a);
        if r3.unicode_len() == 0 || r3.get_char(0) != '=' {
            return Err(Error::ExpectedTag("=".to_owned()));
        }
        let r4 = r3.substring_char(1, r3.unicode_len());
        if r4.unicode_len() > s.unicode_len() {
            return Err(Error::ExpectedTag("=".to_owned()));
        }
        let (r5, val) = match Expression::new(r4) {
            Ok(p) => p,
            Err(e) => {
                return Err(e);
            },
        };
        let (r5b, _) = extract_semicolon(r5);
        let (rem, _) = extract_whitespace(r5b);
        Ok((rem, BindingDef { name: name.to_owned(), val }))
    }
}

impl FunctionDef {
    /// Parses a function definition: `fn`, at least one space, a name, a
    /// parenthesised parameter list, then the body statement.
    pub fn new(s: &str) -> (r: Result<(&str, FunctionDef), Error>)
        ensures
            match r {
                Ok((rem, fd)) => spec_function_def(s@) == Some(
                    (
                        rem@,
                        SpecStmt::FunctionDef {
                            name: fd.name@,
                            params: strings_view(fd.params@),
                            body: Box::new((*fd.body)@),
                        },
                    ),
                ),
                Err(_) => spec_function_def(s@) is None,
            },
        decreases s@.len(), 8int,
    {
        let (t, _) = extract_whitespace(s);
        proof {
            lemma_take_len(CharClass::Whitespace, s@);
            reveal_strlit("fn");
            assert("fn"@ =~= seq!['f', 'n']);
        }
        let r1 = match tag("fn", t) {
            Ok(rem) => rem,
            Err(e) => {
                return Err(e);
            },
        };
        let (r2, _) = match extract_whitespace_restrict(r1) {
            Ok(p) => p,
            Err(e) => {
                return Err(e);
            },
        };
        let (r3, name) = match extract_ident(r2) {
            Ok(p) => p,
            Err(e) => {
                return Err(e);
            },
        };
        let (r4, params) = match extract_params(r3) {
            Ok(p) => p,
            Err(e) => {
                return Err(e);
            },
        };
        if r4.unicode_len() >= s.unicode_len() {
            return Err(Error::ExpectedOpeningParen);
        }
        let (r5, body) = match Statement::new(r4) {
            Ok(p) => p,
            Err(e) => {
                return Err(e);
            },
        };
        Ok((r5, FunctionDef { name: name.to_owned(), params, body: Box::new(body) }))
    }
}

} // verus!
