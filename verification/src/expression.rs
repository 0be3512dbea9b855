//! Expression syntax: operators and expression nodes, with their
//! spec-level images.
//!
//! All nodes are immutable and constructed once during parsing. The binary
//! operation rule is single-level: its operands are parsed by the
//! non-operation alternatives, so chained arithmetic without explicit
//! blocks is out of grammar scope.

use vstd::prelude::*;
use vstd::string::StrSliceExecFns;

use crate::block::Block;
use crate::chars::{digit_value, is_ascii_digit_char, CharClass};
use crate::error::{Error, SpecError};
use crate::grammar::{
    digits_val, fstr_escape_char, interp_len_compose, skip_ws, spec_atom, spec_binding_usage,
    spec_bool, spec_call, spec_else, spec_expr, spec_exprs_until, spec_float, spec_for,
    spec_fstr_body, spec_fstring, spec_if, spec_interp_len, spec_list, spec_number, spec_op,
    spec_operation, spec_str_body, spec_string, spec_unary, spec_while, str_body_compose,
    strip_zeros,
};
use crate::statement::SpecStmt;
use crate::utils::{
    extract_digits, extract_ident, extract_whitespace, keyword, lemma_take_len, push_char,
    take_len, take_while,
};
use crate::val::{Decimal, SpecDecimal};

verus! {

/// A binary operator tag.
#[derive(Clone, Copy, Debug, PartialEq, Eq, Structural)]
pub enum Op {
    Add,
    Sub,
    Mul,
    Div,
    Floor,
    Equal,
    NotEqual,
    Less,
    LessEq,
    Greater,
    GreaterEq,
    And,
    Or,
}

/// A unary operator tag.
#[derive(Clone, Copy, Debug, PartialEq, Eq, Structural)]
pub enum UnaryOp {
    /// Logical not, written `!`.
    Not,
    /// Arithmetic negation, written `-`.
    Neg,
}

/// A 64-bit integer literal. Literals are all-digit: negation is a unary
/// operation, not part of the literal.
#[derive(Debug, PartialEq)]
pub struct Number(pub i64);

/// A float literal, kept as the exact decimal it was written as.
#[derive(Debug, PartialEq)]
pub struct Float(pub Decimal);

/// A string literal, with its escape sequences already decoded.
#[derive(Debug, PartialEq)]
pub struct StrLit(pub String);

/// One part of an interpolated string: literal text, or the source text
/// of an embedded expression, parsed lazily at evaluation time.
#[derive(Debug, PartialEq)]
pub enum FStrPart {
    Text(String),
    Interp(String),
}

/// Spec-level image of an [`FStrPart`].
pub enum SpecFPart {
    Text(Seq<char>),
    Interp(Seq<char>),
}

impl View for FStrPart {
    type V = SpecFPart;

    open spec fn view(&self) -> SpecFPart {
        match self {
            FStrPart::Text(t) => SpecFPart::Text(t@),
            FStrPart::Interp(src) => SpecFPart::Interp(src@),
        }
    }
}

/// The images of a sequence of interpolated-string parts.
pub open spec fn fparts_view(parts: Seq<FStrPart>) -> Seq<SpecFPart> {
    Seq::new(parts.len(), |i: int| parts[i]@)
}

/// A referenced binding name.
#[derive(Debug, PartialEq)]
pub struct BindingUsage {
    pub name: String,
}

/// A conditional: condition, then-block, optional else-branch.
#[derive(Debug, PartialEq)]
pub struct Conditional {
    pub cond: Box<Expression>,
    pub then_block: Block,
    pub else_branch: Option<Box<ElseBranch>>,
}

/// What follows `else`: a block, or a nested conditional.
#[derive(Debug, PartialEq)]
pub enum ElseBranch {
    Else(Block),
    ElseIf(Conditional),
}

/// A while loop: condition and body block.
#[derive(Debug, PartialEq)]
pub struct WhileLoop {
    pub cond: Box<Expression>,
    pub body: Block,
}

/// A for loop: loop variable, iterable expression, body block.
#[derive(Debug, PartialEq)]
pub struct ForLoop {
    pub var: String,
    pub iterable: Box<Expression>,
    pub body: Block,
}

/// A function call: callee name and ordered argument expressions.
#[derive(Debug, PartialEq)]
pub struct CallExpr {
    pub callee: String,
    pub args: Vec<Expression>,
}

/// An expression node.
#[derive(Debug, PartialEq)]
pub enum Expression {
    Number(Number),
    Float(Float),
    Str(StrLit),
    FString(Vec<FStrPart>),
    Bool(bool),
    List(Vec<Expression>),
    Operation { lhs: Box<Expression>, rhs: Box<Expression>, op: Op },
    Unary { op: UnaryOp, operand: Box<Expression> },
    If(Conditional),
    While(WhileLoop),
    For(ForLoop),
    Call(CallExpr),
    BindingUsage(BindingUsage),
    Block(Block),
}

/// The images of a sequence of expressions.
pub open spec fn exprs_view(exprs: Seq<Expression>) -> Seq<SpecExpr>
    decreases exprs via exprs_view_decreases
{
    if exprs.len() == 0 {
        Seq::empty()
    } else {
        exprs_view(exprs.drop_last()).push(exprs.last()@)
    }
}

#[via_fn]
proof fn exprs_view_decreases(exprs: Seq<Expression>) {
    if exprs.len() > 0 {
        vstd::seq::axiom_seq_subrange_decreases(exprs, 0, exprs.len() - 1);
        vstd::seq::axiom_seq_index_decreases(exprs, exprs.len() - 1);
    }
}

/// Each image in `exprs_view` is the image of the expression at that index.
pub proof fn lemma_exprs_view(exprs: Seq<Expression>)
    ensures
        exprs_view(exprs).len() == exprs.len(),
        forall|i: int| 0 <= i < exprs.len() ==> exprs_view(exprs)[i] == #[trigger] exprs[i]@,
    decreases exprs.len(),
{
    if exprs.len() > 0 {
        lemma_exprs_view(exprs.drop_last());
        assert(exprs_view(exprs) == exprs_view(exprs.drop_last()).push(exprs.last()@));
        assert forall|i: int| 0 <= i < exprs.len() implies exprs_view(exprs)[i] == #[trigger] exprs[i]@ by {
            if i < exprs.len() - 1 {
                assert(exprs.drop_last()[i] == exprs[i]);
                assert(exprs_view(exprs)[i] == exprs_view(exprs.drop_last())[i]);
            } else {
                assert(exprs[i] == exprs.last());
            }
        }
    }
}

/// Spec-level image of a [`Conditional`].
#[verifier::ext_equal]
pub struct SpecConditional {
    pub cond: Box<SpecExpr>,
    pub then_block: Seq<SpecStmt>,
    pub else_branch: Option<Box<SpecElseBranch>>,
}

/// Spec-level image of an [`ElseBranch`].
#[verifier::ext_equal]
pub enum SpecElseBranch {
    Else(Seq<SpecStmt>),
    ElseIf(SpecConditional),
}

/// Spec-level image of an [`Expression`].
#[verifier::ext_equal]
pub enum SpecExpr {
    Number(int),
    Float(SpecDecimal),
    Str(Seq<char>),
    FString(Seq<SpecFPart>),
    Bool(bool),
    List(Seq<SpecExpr>),
    Operation { lhs: Box<SpecExpr>, rhs: Box<SpecExpr>, op: Op },
    Unary { op: UnaryOp, operand: Box<SpecExpr> },
    If(SpecConditional),
    While { cond: Box<SpecExpr>, body: Seq<SpecStmt> },
    For { var: Seq<char>, iterable: Box<SpecExpr>, body: Seq<SpecStmt> },
    Call { callee: Seq<char>, args: Seq<SpecExpr> },
    BindingUsage(Seq<char>),
    Block(Seq<SpecStmt>),
}

impl View for Conditional {
    type V = SpecConditional;

    open spec fn view(&self) -> SpecConditional
        decreases self,
    {
        SpecConditional {
            cond: Box::new((*self.cond)@),
            then_block: self.then_block@,
            else_branch: match &self.else_branch {
                Option::None => Option::None,
                Option::Some(b) => Option::Some(Box::new((**b)@)),
            },
        }
    }
}

impl View for ElseBranch {
    type V = SpecElseBranch;

    open spec fn view(&self) -> SpecElseBranch
        decreases self,
    {
        match self {
            ElseBranch::Else(b) => SpecElseBranch::Else(b@),
            ElseBranch::ElseIf(c) => SpecElseBranch::ElseIf(c@),
        }
    }
}

impl View for Expression {
    type V = SpecExpr;

    open spec fn view(&self) -> SpecExpr
        decreases self,
    {
        match self {
            Expression::Number(n) => SpecExpr::Number(n.0 as int),
            Expression::Float(f) => SpecExpr::Float(f.0@),
            Expression::Str(s) => SpecExpr::Str(s.0@),
            Expression::FString(parts) => SpecExpr::FString(fparts_view(parts@)),
            Expression::Bool(b) => SpecExpr::Bool(*b),
            Expression::List(elems) => SpecExpr::List(exprs_view(elems@)),
            Expression::Operation { lhs, rhs, op } => SpecExpr::Operation {
                lhs: Box::new((**lhs)@),
                rhs: Box::new((**rhs)@),
                op: *op,
            },
            Expression::Unary { op, operand } => SpecExpr::Unary {
                op: *op,
                operand: Box::new((**operand)@),
            },
            Expression::If(c) => SpecExpr::If(c@),
            Expression::While(w) => SpecExpr::While { cond: Box::new((*w.cond)@), body: w.body@ },
            Expression::For(f) => SpecExpr::For {
                var: f.var@,
                iterable: Box::new((*f.iterable)@),
                body: f.body@,
            },
            Expression::Call(c) => SpecExpr::Call {
                callee: c.callee@,
                args: exprs_view(c.args@),
            },
            Expression::BindingUsage(b) => SpecExpr::BindingUsage(b.name@),
            Expression::Block(b) => SpecExpr::Block(b@),
        }
    }
}

impl Conditional {
    /// A copy with the same image.
    pub fn dup(&self) -> (r: Conditional)
        ensures
            r@ == self@,
        decreases self,
    {
        let else_branch: Option<Box<ElseBranch>> = match &self.else_branch {
            Option::None => Option::None,
            Option::Some(b) => Option::Some(Box::new(b.dup())),
        };
        Conditional {
            cond: Box::new(self.cond.dup()),
            then_block: self.then_block.dup(),
            else_branch,
        }
    }
}

impl ElseBranch {
    /// A copy with the same image.
    pub fn dup(&self) -> (r: ElseBranch)
        ensures
            r@ == self@,
        decreases self,
    {
        match self {
            ElseBranch::Else(b) => ElseBranch::Else(b.dup()),
            ElseBranch::ElseIf(c) => ElseBranch::ElseIf(c.dup()),
        }
    }
}

impl Expression {
    /// A copy with the same image. Written by hand so that the copy's
    /// relation to the original is part of the contract.
    #[verifier::loop_isolation(false)]
    pub fn dup(&self) -> (r: Expression)
        ensures
            r@ == self@,
        decreases self,
    {
        match self {
            Expression::Number(n) => Expression::Number(Number(n.0)),
            Expression::Float(f) => Expression::Float(Float(f.0.dup())),
            Expression::Str(s) => Expression::Str(StrLit(s.0.clone())),
            Expression::FString(parts) => {
                let mut out: Vec<FStrPart> = Vec::new();
                let n = parts.len();
                let mut i: usize = 0;
                while i < n
                    invariant
                        i <= n,
                        out@.len() == i,
                        forall|j: int| 0 <= j < i ==> #[trigger] out@[j]@ == parts@[j]@,
                    decreases n - i,
                {
                    let part = match &parts[i] {
                        FStrPart::Text(t) => FStrPart::Text(t.clone()),
                        FStrPart::Interp(src) => FStrPart::Interp(src.clone()),
                    };
                    out.push(part);
                    i = i + 1;
                }
                let r = Expression::FString(out);
                proof {
                    assert(fparts_view(out@) =~= fparts_view(parts@));
                }
                r
            },
            Expression::Bool(b) => Expression::Bool(*b),
            Expression::List(elems) => {
                let mut out: Vec<Expression> = Vec::new();
                let n = elems.len();
                let mut i: usize = 0;
                while i < n
                    invariant
                        n == elems@.len(),
                        i <= n,
                        out@.len() == i,
                        forall|j: int| 0 <= j < i ==> #[trigger] out@[j]@ == elems@[j]@,
                    decreases n - i,
                {
                    let item: &Expression = &elems[i];
                    proof {
                        assert(decreases_to!(*self => elems@[i as int]));
                    }
                    out.push(item.dup());
                    i = i + 1;
                }
                let r = Expression::List(out);
                proof {
                    lemma_exprs_view(out@);
                    lemma_exprs_view(elems@);
                    assert forall|k: int| 0 <= k < out@.len() implies exprs_view(out@)[k]
                        == exprs_view(elems@)[k] by {
                        assert(out@[k]@ == elems@[k]@);
                    }
                    assert(exprs_view(out@) =~= exprs_view(elems@));
                }
                r
            },
            Expression::Operation { lhs, rhs, op } => Expression::Operation {
                lhs: Box::new(lhs.dup()),
                rhs: Box::new(rhs.dup()),
                op: *op,
            },
            Expression::Unary { op, operand } => Expression::Unary {
                op: *op,
                operand: Box::new(operand.dup()),
            },
            Expression::If(c) => Expression::If(c.dup()),
            Expression::While(w) => Expression::While(
                WhileLoop { cond: Box::new(w.cond.dup()), body: w.body.dup() },
            ),
            Expression::For(f) => Expression::For(
                ForLoop {
                    var: f.var.clone(),
                    iterable: Box::new(f.iterable.dup()),
                    body: f.body.dup(),
                },
            ),
            Expression::Call(c) => {
                let mut out: Vec<Expression> = Vec::new();
                let n = c.args.len();
                let mut i: usize = 0;
                while i < n
                    invariant
                        n == c.args@.len(),
                        i <= n,
                        out@.len() == i,
                        forall|j: int| 0 <= j < i ==> #[trigger] out@[j]@ == c.args@[j]@,
                    decreases n - i,
                {
                    let item: &Expression = &c.args[i];
                    proof {
                        assert(decreases_to!(*self => c.args@[i as int]));
                    }
                    out.push(item.dup());
                    i = i + 1;
                }
                let r = Expression::Call(CallExpr { callee: c.callee.clone(), args: out });
                proof {
                    lemma_exprs_view(out@);
                    lemma_exprs_view(c.args@);
                    assert forall|k: int| 0 <= k < out@.len() implies exprs_view(out@)[k]
                        == exprs_view(c.args@)[k] by {
                        assert(out@[k]@ == c.args@[k]@);
                    }
                    assert(exprs_view(out@) =~= exprs_view(c.args@));
                }
                r
            },
            Expression::BindingUsage(b) => Expression::BindingUsage(
                BindingUsage { name: b.name.clone() },
            ),
            Expression::Block(b) => Expression::Block(b.dup()),
        }
    }
}

/// Extending a digit string never shrinks its value.
proof fn lemma_digits_val_grows(s: Seq<char>, i: int, j: int)
    requires
        0 <= i <= j <= s.len(),
        forall|k: int| 0 <= k < s.len() ==> is_ascii_digit_char(#[trigger] s[k]),
    ensures
        digits_val(s.subrange(0, i)) <= digits_val(s.subrange(0, j)),
        digits_val(s.subrange(0, i)) >= 0,
    decreases j - i,
{
    if i == j {
        lemma_digits_val_nonneg(s, i);
    } else {
        lemma_digits_val_grows(s, i, j - 1);
        let a = s.subrange(0, j - 1);
        let b = s.subrange(0, j);
        assert(b.drop_last() =~= a);
        assert(is_ascii_digit_char(b.last()));
        lemma_digits_val_nonneg(s, j - 1);
    }
}

/// A digit string's value is nonnegative.
proof fn lemma_digits_val_nonneg(s: Seq<char>, i: int)
    requires
        0 <= i <= s.len(),
        forall|k: int| 0 <= k < s.len() ==> is_ascii_digit_char(#[trigger] s[k]),
    ensures
        digits_val(s.subrange(0, i)) >= 0,
    decreases i,
{
    if i > 0 {
        lemma_digits_val_nonneg(s, i - 1);
        let b = s.subrange(0, i);
        assert(b.drop_last() =~= s.subrange(0, i - 1));
        assert(is_ascii_digit_char(b.last()));
    }
}

/// The value of a digit run, or `None` when it exceeds the unsigned 64-bit
/// range.
#[verifier::loop_isolation(false)]
fn parse_digits_u64(digits: &str) -> (r: Option<u64>)
    requires
        forall|k: int| 0 <= k < digits@.len() ==> is_ascii_digit_char(#[trigger] digits@[k]),
    ensures
        match r {
            Some(v) => v as int == digits_val(digits@) && digits_val(digits@) <= u64::MAX,
            None => digits_val(digits@) > u64::MAX,
        },
{
    let len = digits.unicode_len();
    let mut acc: u64 = 0;
    let mut i: usize = 0;
    proof {
        assert(digits@.subrange(0, 0) =~= Seq::<char>::empty());
    }
    while i < len
        invariant
            i <= len,
            acc as int == digits_val(digits@.subrange(0, i as int)),
        decreases len - i,
    {
        let c = digits.get_char(i);
        let d: u64 = (c as u32 as u64) - ('0' as u32 as u64);
        proof {
            assert(is_ascii_digit_char(digits@[i as int]));
            assert(d as int == digit_value(c));
            assert(digits@.subrange(0, i + 1).drop_last() =~= digits@.subrange(0, i as int));
            assert(digits@.subrange(0, i + 1).last() == digits@[i as int]);
        }
        if acc > (u64::MAX - d) / 10 {
            proof {
                assert(acc as int * 10 + d as int > u64::MAX) by (nonlinear_arith)
                    requires
                        acc as int > (u64::MAX - d as int) / 10,
                        0 <= d as int <= 9,
                ;
                lemma_digits_val_grows(digits@, i + 1, digits@.len() as int);
                assert(digits@.subrange(0, digits@.len() as int) =~= digits@);
            }
            return None;
        }
        proof {
            assert(acc as int * 10 + d as int <= u64::MAX) by (nonlinear_arith)
                requires
                    acc as int <= (u64::MAX - d as int) / 10,
                    0 <= d as int <= 9,
            ;
        }
        acc = acc * 10 + d;
        i = i + 1;
    }
    proof {
        assert(digits@.subrange(0, len as int) =~= digits@);
    }
    Some(acc)
}

/// `strip_zeros` is the cut before the trailing zeros.
proof fn lemma_strip_zeros_unique(s: Seq<char>, k: int)
    requires
        0 <= k <= s.len(),
        forall|j: int| k <= j < s.len() ==> s[j] == '0',
        k == 0 || s[k - 1] != '0',
    ensures
        strip_zeros(s) == s.subrange(0, k),
    decreases s.len(),
{
    if s.len() > 0 && s.last() == '0' {
        lemma_strip_zeros_unique(s.drop_last(), k);
        assert(s.drop_last().subrange(0, k) =~= s.subrange(0, k));
    } else {
        assert(s.subrange(0, s.len() as int) =~= s);
    }
}

impl Number {
    /// Parses an integer literal after any leading whitespace: a run of
    /// digits whose value fits a 64-bit signed integer.
    pub fn new(s: &str) -> (r: Result<(&str, Number), Error>)
        ensures
            match r {
                Ok((rem, n)) => spec_number(s@) == Some((rem@, n.0 as int)),
                Err(e) => {
                    &&& spec_number(s@) is None
                    &&& e == (if take_len(CharClass::Digit, skip_ws(s@)) == 0 {
                        Error::ExpectedDigits
                    } else {
                        Error::NumberTooLarge
                    })
                },
            },
    {
        let (t, _) = extract_whitespace(s);
        proof {
            lemma_take_len(CharClass::Whitespace, s@);
        }
        let (rem, digits) = match extract_digits(t) {
            Ok(p) => p,
            Err(e) => {
                return Err(e);
            },
        };
        proof {
            lemma_take_len(CharClass::Digit, t@);
        }
        match parse_digits_u64(digits) {
            None => Err(Error::NumberTooLarge),
            Some(v) => {
                if v > i64::MAX as u64 {
                    Err(Error::NumberTooLarge)
                } else {
                    Ok((rem, Number(v as i64)))
                }
            },
        }
    }
}

impl Float {
    /// Parses a float literal after any leading whitespace: digits, a
    /// decimal point, and at least one more digit.
    pub fn new(s: &str) -> (r: Result<(&str, Float), Error>)
        ensures
            match r {
                Ok((rem, f)) => spec_float(s@) == Some((rem@, f.0@)) && f.0.wf(),
                Err(_) => spec_float(s@) is None,
            },
    {
        let (t, _) = extract_whitespace(s);
        proof {
            lemma_take_len(CharClass::Whitespace, s@);
        }
        let (r1, whole_digits) = match extract_digits(t) {
            Ok(p) => p,
            Err(e) => {
                return Err(e);
            },
        };
        proof {
            lemma_take_len(CharClass::Digit, t@);
        }
        if r1.unicode_len() == 0 || r1.get_char(0) != '.' {
            return Err(Error::ExpectedDecimalPoint);
        }
        let r2 = r1.substring_char(1, r1.unicode_len());
        let (r3, frac_digits) = match extract_digits(r2) {
            Ok(p) => p,
            Err(_) => {
                return Err(Error::ExpectedDigitsAfterDecimalPoint);
            },
        };
        proof {
            lemma_take_len(CharClass::Digit, r2@);
        }
        let whole = match parse_digits_u64(whole_digits) {
            None => {
                return Err(Error::NumberTooLarge);
            },
            Some(v) => v,
        };
        // strip trailing zeros from the fraction
        let mut k = frac_digits.unicode_len();
        while k > 0 && frac_digits.get_char(k - 1) == '0'
            invariant
                k <= frac_digits@.len(),
                forall|j: int| k <= j < frac_digits@.len() ==> frac_digits@[j] == '0',
            decreases k,
        {
            k = k - 1;
        }
        proof {
            lemma_strip_zeros_unique(frac_digits@, k as int);
        }
        let frac = frac_digits.substring_char(0, k).to_owned();
        let d = Decimal { neg: false, whole, frac };
        proof {
            let m = take_len(CharClass::Digit, r2@);
            assert(forall|j: int|
                0 <= j < d.frac@.len() ==> is_ascii_digit_char(#[trigger] d.frac@[j]));
        }
        Ok((r3, Float(d)))
    }
}

impl Op {
    /// Parses a binary operator, longest first.
    pub fn new(s: &str) -> (r: Result<(&str, Op), Error>)
        ensures
            match r {
                Ok((rem, op)) => spec_op(s@) == Some((rem@, op)),
                Err(e) => spec_op(s@) is None && e@ == SpecError::ExpectedOperator(s@),
            },
    {
        let len = s.unicode_len();
        if len == 0 {
            return Err(Error::ExpectedOperator(s.to_owned()));
        }
        let c = s.get_char(0);
        let two = len >= 2;
        let c1 = if two {
            s.get_char(1)
        } else {
            c
        };
        if c == '=' {
            if two && c1 == '=' {
                Ok((s.substring_char(2, len), Op::Equal))
            } else {
                Err(Error::ExpectedOperator(s.to_owned()))
            }
        } else if c == '!' {
            if two && c1 == '=' {
                Ok((s.substring_char(2, len), Op::NotEqual))
            } else {
                Err(Error::ExpectedOperator(s.to_owned()))
            }
        } else if c == '<' {
            if two && c1 == '=' {
                Ok((s.substring_char(2, len), Op::LessEq))
            } else {
                Ok((s.substring_char(1, len), Op::Less))
            }
        } else if c == '>' {
            if two && c1 == '=' {
                Ok((s.substring_char(2, len), Op::GreaterEq))
            } else {
                Ok((s.substring_char(1, len), Op::Greater))
            }
        } else if c == '&' {
            if two && c1 == '&' {
                Ok((s.substring_char(2, len), Op::And))
            } else {
                Err(Error::ExpectedOperator(s.to_owned()))
            }
        } else if c == '|' {
            if two && c1 == '|' {
                Ok((s.substring_char(2, len), Op::Or))
            } else {
                Err(Error::ExpectedOperator(s.to_owned()))
            }
        } else if c == '/' {
            if two && c1 == '/' {
                Ok((s.substring_char(2, len), Op::Floor))
            } else {
                Ok((s.substring_char(1, len), Op::Div))
            }
        } else if c == '+' {
            Ok((s.substring_char(1, len), Op::Add))
        } else if c == '-' {
            Ok((s.substring_char(1, len), Op::Sub))
        } else if c == '*' {
            Ok((s.substring_char(1, len), Op::Mul))
        } else {
            Err(Error::ExpectedOperator(s.to_owned()))
        }
    }
}

/// Scans a string-literal body after its opening quote, decoding escapes,
/// up to and over the closing quote.
#[verifier::loop_isolation(false)]
fn scan_str_body(s: &str) -> (r: Result<(&str, String), Error>)
    ensures
        match r {
            Ok((rem, content)) => spec_str_body(s@) == Some((rem@, content@)),
            Err(_) => spec_str_body(s@) is None,
        },
{
    let len = s.unicode_len();
    let mut out = String::new();
    let mut i: usize = 0;
    proof {
        assert(s@.subrange(0, len as int) =~= s@);
        match spec_str_body(s@) {
            Some((rem, tail)) => {
                assert(Seq::<char>::empty() + tail =~= tail);
            },
            None => {},
        }
    }
    loop
        invariant
            i <= len,
            str_body_compose(out@, spec_str_body(s@.subrange(i as int, len as int)))
                == spec_str_body(s@),
        decreases len - i,
    {
        let ghost suf = s@.subrange(i as int, len as int);
        if i == len {
            proof {
                assert(suf =~= Seq::<char>::empty());
            }
            return Err(Error::UnterminatedString);
        }
        let c = s.get_char(i);
        proof {
            assert(suf[0] == c);
        }
        if c == '"' {
            let rem = s.substring_char(i + 1, len);
            proof {
                assert(suf.subrange(1, suf.len() as int) =~= s@.subrange(i + 1, len as int));
                assert(out@ + Seq::<char>::empty() =~= out@);
            }
            return Ok((rem, out));
        } else if c == '\\' {
            if i + 1 == len {
                proof {
                    assert(suf.len() < 2);
                }
                return Err(Error::UnterminatedString);
            }
            let e = s.get_char(i + 1);
            proof {
                assert(suf[1] == e);
            }
            let d: char;
            if e == 'n' {
                d = '\n';
            } else if e == 't' {
                d = '\t';
            } else if e == 'r' {
                d = '\r';
            } else if e == '\\' {
                d = '\\';
            } else if e == '"' {
                d = '"';
            } else {
                return Err(Error::UnterminatedString);
            }
            proof {
                assert(suf.subrange(2, suf.len() as int) =~= s@.subrange(i + 2, len as int));
                match spec_str_body(s@.subrange(i + 2, len as int)) {
                    Some((rem, tail)) => {
                        assert(out@ + (seq![d] + tail) =~= out@.push(d) + tail);
                    },
                    None => {},
                }
            }
            push_char(&mut out, d);
            i = i + 2;
        } else {
            proof {
                assert(suf.subrange(1, suf.len() as int) =~= s@.subrange(i + 1, len as int));
                match spec_str_body(s@.subrange(i + 1, len as int)) {
                    Some((rem, tail)) => {
                        assert(out@ + (seq![c] + tail) =~= out@.push(c) + tail);
                    },
                    None => {},
                }
            }
            push_char(&mut out, c);
            i = i + 1;
        }
    }
}

impl BindingUsage {
    /// Parses a referenced binding name: an identifier after any leading
    /// whitespace.
    pub fn new(s: &str) -> (r: Result<(&str, BindingUsage), Error>)
        ensures
            match r {
                Ok((rem, b)) => spec_binding_usage(s@) == Some(
                    (rem@, SpecExpr::BindingUsage(b.name@)),
                ),
                Err(e) => spec_binding_usage(s@) is None && e == Error::ExpectedIdentifier,
            },
    {
        let (t, _) = extract_whitespace(s);
        match extract_ident(t) {
            Err(e) => Err(e),
            Ok((rem, name)) => Ok((rem, BindingUsage { name: name.to_owned() })),
        }
    }
}

impl Expression {
    /// Parses an expression: a binary operation, or any operand
    /// alternative, whichever matches first.
    pub fn new(s: &str) -> (r: Result<(&str, Expression), Error>)
        ensures
            match r {
                Ok((rem, e)) => spec_expr(s@) == Some((rem@, e@)),
                Err(_) => spec_expr(s@) is None,
            },
        decreases s@.len(), 7int,
    {
        match Self::new_operation(s) {
            Ok(r) => Ok(r),
            Err(_) => Self::atom(s),
        }
    }

    /// Parses a single-level binary operation: operand, operator, operand.
    fn new_operation(s: &str) -> (r: Result<(&str, Expression), Error>)
        ensures
            match r {
                Ok((rem, e)) => spec_operation(s@) == Some((rem@, e@)),
                Err(_) => spec_operation(s@) is None,
            },
        decreases s@.len(), 6int,
    {
        let (r1, lhs) = match Self::atom(s) {
            Ok(p) => p,
            Err(e) => {
                return Err(e);
            },
        };
        let (r2, _) = extract_whitespace(r1);
        let (r3, op) = match Op::new(r2) {
            Ok(p) => p,
            Err(e) => {
                return Err(e);
            },
        };
        // parsing only narrows the input; this mirrors the grammar's
        // termination guard
        if r3.unicode_len() > s.unicode_len() {
            return Err(Error::ExpectedOperator(s.to_owned()));
        }
        let (r5, rhs) = match Self::atom(r3) {
            Ok(p) => p,
            Err(e) => {
                return Err(e);
            },
        };
        Ok((r5, Expression::Operation { lhs: Box::new(lhs), rhs: Box::new(rhs), op }))
    }

    /// Parses an operand: every non-operation alternative, in priority
    /// order.
    fn atom(s: &str) -> (r: Result<(&str, Expression), Error>)
        ensures
            match r {
                Ok((rem, e)) => spec_atom(s@) == Some((rem@, e@)),
                Err(_) => spec_atom(s@) is None,
            },
        decreases s@.len(), 5int,
    {
        match Self::new_unary(s) {
            Ok(r) => {
                return Ok(r);
            },
            Err(_) => {},
        }
        match Self::new_if(s) {
            Ok((rem, c)) => {
                return Ok((rem, Expression::If(c)));
            },
            Err(_) => {},
        }
        match Self::new_while(s) {
            Ok(r) => {
                return Ok(r);
            },
            Err(_) => {},
        }
        match Self::new_for(s) {
            Ok(r) => {
                return Ok(r);
            },
            Err(_) => {},
        }
        match Self::new_call(s) {
            Ok(r) => {
                return Ok(r);
            },
            Err(_) => {},
        }
        match Self::new_list(s) {
            Ok(r) => {
                return Ok(r);
            },
            Err(_) => {},
        }
        match Self::new_bool(s) {
            Ok(r) => {
                return Ok(r);
            },
            Err(_) => {},
        }
        match Float::new(s) {
            Ok((rem, f)) => {
                return Ok((rem, Expression::Float(f)));
            },
            Err(_) => {},
        }
        match Number::new(s) {
            Ok((rem, n)) => {
                return Ok((rem, Expression::Number(n)));
            },
            Err(_) => {},
        }
        match Self::new_fstring(s) {
            Ok(r) => {
                return Ok(r);
            },
            Err(_) => {},
        }
        match Self::new_string(s) {
            Ok(r) => {
                return Ok(r);
            },
            Err(_) => {},
        }
        match BindingUsage::new(s) {
            Ok((rem, b)) => {
                return Ok((rem, Expression::BindingUsage(b)));
            },
            Err(_) => {},
        }
        match Block::new(s) {
            Ok((rem, b)) => Ok((rem, Expression::Block(b))),
            Err(e) => Err(e),
        }
    }

    /// Parses a unary operation: `!` or `-`, then an operand.
    fn new_unary(s: &str) -> (r: Result<(&str, Expression), Error>)
        ensures
            match r {
                Ok((rem, e)) => spec_unary(s@) == Some((rem@, e@)),
                Err(_) => spec_unary(s@) is None,
            },
        decreases s@.len(), 4int,
    {
        let (t, _) = extract_whitespace(s);
        proof {
            lemma_take_len(CharClass::Whitespace, s@);
        }
        if t.unicode_len() == 0 {
            return Err(Error::ExpectedOperator(s.to_owned()));
        }
        let c = t.get_char(0);
        if !(c == '!' || c == '-') {
            return Err(Error::ExpectedOperator(s.to_owned()));
        }
        let op = if c == '!' {
            UnaryOp::Not
        } else {
            UnaryOp::Neg
        };
        let rest = t.substring_char(1, t.unicode_len());
        let (rem, operand) = match Self::atom(rest) {
            Ok(p) => p,
            Err(e) => {
                return Err(e);
            },
        };
        Ok((rem, Expression::Unary { op, operand: Box::new(operand) }))
    }

    /// Parses a conditional with its optional else-branch.
    fn new_if(s: &str) -> (r: Result<(&str, Conditional), Error>)
        ensures
            match r {
                Ok((rem, c)) => spec_if(s@) == Some((rem@, c@)),
                Err(_) => spec_if(s@) is None,
            },
        decreases s@.len(), 4int,
    {
        let (t, _) = extract_whitespace(s);
        proof {
            lemma_take_len(CharClass::Whitespace, s@);
            reveal_strlit("if");
            assert("if"@ =~= seq!['i', 'f']);
        }
        let after_kw = match keyword("if", t) {
            None => {
                return Err(Error::ExpectedTag("if".to_owned()));
            },
            Some(rem) => rem,
        };
        let (r1, cond) = match Self::new(after_kw) {
            Ok(p) => p,
            Err(e) => {
                return Err(e);
            },
        };
        if r1.unicode_len() > s.unicode_len() {
            return Err(Error::ExpectedTag("{".to_owned()));
        }
        let (r3, then_block) = match Block::new(r1) {
            Ok(p) => p,
            Err(e) => {
                return Err(e);
            },
        };
        let (r4, _) = extract_whitespace(r3);
        proof {
            reveal_strlit("else");
            assert("else"@ =~= seq!['e', 'l', 's', 'e']);
        }
        match keyword("else", r4) {
            None => Ok(
                (r3, Conditional { cond: Box::new(cond), then_block, else_branch: None }),
            ),
            Some(r5) => {
                if r5.unicode_len() >= s.unicode_len() {
                    return Err(Error::ExpectedTag("{".to_owned()));
                }
                let (r6, eb) = match Self::new_else(r5) {
                    Ok(p) => p,
                    Err(e) => {
                        return Err(e);
                    },
                };
                Ok(
                    (
                        r6,
                        Conditional {
                            cond: Box::new(cond),
                            then_block,
                            else_branch: Some(Box::new(eb)),
                        },
                    ),
                )
            },
        }
    }

    /// Parses what follows `else`: a nested conditional or a block.
    fn new_else(s: &str) -> (r: Result<(&str, ElseBranch), Error>)
        ensures
            match r {
                Ok((rem, eb)) => spec_else(s@) == Some((rem@, eb@)),
                Err(_) => spec_else(s@) is None,
            },
        decreases s@.len(), 5int,
    {
        match Self::new_if(s) {
            Ok((rem, c)) => {
                return Ok((rem, ElseBranch::ElseIf(c)));
            },
            Err(_) => {},
        }
        match Block::new(s) {
            Ok((rem, b)) => Ok((rem, ElseBranch::Else(b))),
            Err(e) => Err(e),
        }
    }

    /// Parses a while loop.
    fn new_while(s: &str) -> (r: Result<(&str, Expression), Error>)
        ensures
            match r {
                Ok((rem, e)) => spec_while(s@) == Some((rem@, e@)),
                Err(_) => spec_while(s@) is None,
            },
        decreases s@.len(), 4int,
    {
        let (t, _) = extract_whitespace(s);
        proof {
            lemma_take_len(CharClass::Whitespace, s@);
            reveal_strlit("while");
            assert("while"@ =~= seq!['w', 'h', 'i', 'l', 'e']);
        }
        let after_kw = match keyword("while", t) {
            None => {
                return Err(Error::ExpectedTag("while".to_owned()));
            },
            Some(rem) => rem,
        };
        let (r1, cond) = match Self::new(after_kw) {
            Ok(p) => p,
            Err(e) => {
                return Err(e);
            },
        };
        if r1.unicode_len() > s.unicode_len() {
            return Err(Error::ExpectedTag("{".to_owned()));
        }
        let (r3, body) = match Block::new(r1) {
            Ok(p) => p,
            Err(e) => {
                return Err(e);
            },
        };
        Ok((r3, Expression::While(WhileLoop { cond: Box::new(cond), body })))
    }

    /// Parses a for loop.
    fn new_for(s: &str) -> (r: Result<(&str, Expression), Error>)
        ensures
            match r {
                Ok((rem, e)) => spec_for(s@) == Some((rem@, e@)),
                Err(_) => spec_for(s@) is None,
            },
        decreases s@.len(), 4int,
    {
        let (t, _) = extract_whitespace(s);
        proof {
            lemma_take_len(CharClass::Whitespace, s@);
            reveal_strlit("for");
            assert("for"@ =~= seq!['f', 'o', 'r']);
        }
        let after_kw = match keyword("for", t) {
            None => {
                return Err(Error::ExpectedTag("for".to_owned()));
            },
            Some(rem) => rem,
        };
        let (r1a, _) = extract_whitespace(after_kw);
        let (r1b, var) = match extract_ident(r1a) {
            Ok(p) => p,
            Err(e) => {
                return Err(e);
            },
        };
        let (r2, _) = extract_whitespace(r1b);
        proof {
            reveal_strlit("in");
            assert("in"@ =~= seq!['i', 'n']);
        }
        let r3 = match keyword("in", r2) {
            None => {
                return Err(Error::ExpectedTag("in".to_owned()));
            },
            Some(rem) => rem,
        };
        if r3.unicode_len() >= s.unicode_len() {
            return Err(Error::ExpectedTag("in".to_owned()));
        }
        let (r4, iterable) = match Self::new(r3) {
            Ok(p) => p,
            Err(e) => {
                return Err(e);
            },
        };
        if r4.unicode_len() > s.unicode_len() {
            return Err(Error::ExpectedTag("{".to_owned()));
        }
        let (r6, body) = match Block::new(r4) {
            Ok(p) => p,
            Err(e) => {
                return Err(e);
            },
        };
        Ok(
            (
                r6,
                Expression::For(
                    ForLoop { var: var.to_owned(), iterable: Box::new(iterable), body },
                ),
            ),
        )
    }

    /// Parses a function call: an identifier directly followed by an
    /// argument list in parentheses.
    fn new_call(s: &str) -> (r: Result<(&str, Expression), Error>)
        ensures
            match r {
                Ok((rem, e)) => spec_call(s@) == Some((rem@, e@)),
                Err(_) => spec_call(s@) is None,
            },
        decreases s@.len(), 4int,
    {
        let (t, _) = extract_whitespace(s);
        proof {
            lemma_take_len(CharClass::Whitespace, s@);
        }
        let (r1, name) = match extract_ident(t) {
            Ok(p) => p,
            Err(e) => {
                return Err(e);
            },
        };
        if r1.unicode_len() == 0 || r1.get_char(0) != '(' {
            return Err(Error::ExpectedOpeningParen);
        }
        let r2 = r1.substring_char(1, r1.unicode_len());
        if r2.unicode_len() >= s.unicode_len() {
            return Err(Error::ExpectedOpeningParen);
        }
        let (r3, args) = match Self::exprs_until(r2, ')') {
            Ok(p) => p,
            Err(e) => {
                return Err(e);
            },
        };
        Ok((r3, Expression::Call(CallExpr { callee: name.to_owned(), args })))
    }

    /// Parses a list literal.
    fn new_list(s: &str) -> (r: Result<(&str, Expression), Error>)
        ensures
            match r {
                Ok((rem, e)) => spec_list(s@) == Some((rem@, e@)),
                Err(_) => spec_list(s@) is None,
            },
        decreases s@.len(), 4int,
    {
        let (t, _) = extract_whitespace(s);
        proof {
            lemma_take_len(CharClass::Whitespace, s@);
        }
        if t.unicode_len() == 0 || t.get_char(0) != '[' {
            return Err(Error::ExpectedTag("[".to_owned()));
        }
        let inner = t.substring_char(1, t.unicode_len());
        let (rem, elems) = match Self::exprs_until(inner, ']') {
            Ok(p) => p,
            Err(e) => {
                return Err(e);
            },
        };
        Ok((rem, Expression::List(elems)))
    }

    /// Parses comma-separated expressions up to (and over) the closing
    /// delimiter.
    fn exprs_until<'a>(s: &'a str, close: char) -> (r: Result<(&'a str, Vec<Expression>), Error>)
        ensures
            match r {
                Ok((rem, es)) => spec_exprs_until(s@, close) == Some((rem@, exprs_view(es@))),
                Err(_) => spec_exprs_until(s@, close) is None,
            },
        decreases s@.len(), 8int,
    {
        let (t, _) = extract_whitespace(s);
        proof {
            lemma_take_len(CharClass::Whitespace, s@);
        }
        if t.unicode_len() > 0 && t.get_char(0) == close {
            proof {
                assert(exprs_view(Seq::<Expression>::empty()) =~= Seq::<SpecExpr>::empty());
            }
            return Ok((t.substring_char(1, t.unicode_len()), Vec::new()));
        }
        let (r1, e) = match Self::new(t) {
            Ok(p) => p,
            Err(err) => {
                return Err(err);
            },
        };
        let (r2, _) = extract_whitespace(r1);
        if r2.unicode_len() > 0 && r2.get_char(0) == close {
            let mut es: Vec<Expression> = Vec::new();
            let ghost ev = e@;
            es.push(e);
            proof {
                lemma_exprs_view(es@);
                assert(exprs_view(es@) =~= seq![ev]);
            }
            return Ok((r2.substring_char(1, r2.unicode_len()), es));
        }
        if r2.unicode_len() > 0 && r2.get_char(0) == ',' {
            let r3 = r2.substring_char(1, r2.unicode_len());
            if r3.unicode_len() >= s.unicode_len() {
                return Err(Error::ExpectedClosingParen);
            }
            let (r4, rest) = match Self::exprs_until(r3, close) {
                Ok(p) => p,
                Err(err) => {
                    return Err(err);
                },
            };
            let ghost ev = e@;
            let ghost restv = rest@;
            let mut es = rest;
            es.insert(0, e);
            proof {
                lemma_exprs_view(es@);
                lemma_exprs_view(restv);
                assert forall|k: int| 0 <= k < es@.len() implies exprs_view(es@)[k] == (seq![ev]
                    + exprs_view(restv))[k] by {
                    assert(exprs_view(es@)[k] == es@[k]@);
                    if k > 0 {
                        assert(es@[k] == restv[k - 1]);
                        assert(exprs_view(restv)[k - 1] == restv[k - 1]@);
                    } else {
                        assert(es@[0]@ == ev);
                    }
                }
                assert(exprs_view(es@) =~= seq![ev] + exprs_view(restv));
            }
            return Ok((r4, es));
        }
        Err(Error::ExpectedClosingParen)
    }

    /// Parses a boolean literal.
    fn new_bool(s: &str) -> (r: Result<(&str, Expression), Error>)
        ensures
            match r {
                Ok((rem, e)) => spec_bool(s@) == Some((rem@, e@)),
                Err(_) => spec_bool(s@) is None,
            },
    {
        let (t, _) = extract_whitespace(s);
        proof {
            reveal_strlit("true");
            reveal_strlit("false");
            assert("true"@ =~= seq!['t', 'r', 'u', 'e']);
            assert("false"@ =~= seq!['f', 'a', 'l', 's', 'e']);
        }
        match keyword("true", t) {
            Some(rem) => {
                return Ok((rem, Expression::Bool(true)));
            },
            None => {},
        }
        match keyword("false", t) {
            Some(rem) => Ok((rem, Expression::Bool(false))),
            None => Err(Error::ExpectedIdentifier),
        }
    }

    /// Parses an interpolated string literal.
    fn new_fstring(s: &str) -> (r: Result<(&str, Expression), Error>)
        ensures
            match r {
                Ok((rem, e)) => spec_fstring(s@) == Some((rem@, e@)),
                Err(_) => spec_fstring(s@) is None,
            },
    {
        let (t, _) = extract_whitespace(s);
        if t.unicode_len() < 2 || t.get_char(0) != 'f' || t.get_char(1) != '"' {
            return Err(Error::UnterminatedString);
        }
        let body = t.substring_char(2, t.unicode_len());
        let (rem, parts) = match scan_fstr_body(body) {
            Ok(p) => p,
            Err(e) => {
                return Err(e);
            },
        };
        Ok((rem, Expression::FString(parts)))
    }

    /// Parses a string literal.
    fn new_string(s: &str) -> (r: Result<(&str, Expression), Error>)
        ensures
            match r {
                Ok((rem, e)) => spec_string(s@) == Some((rem@, e@)),
                Err(_) => spec_string(s@) is None,
            },
    {
        let (t, _) = extract_whitespace(s);
        if t.unicode_len() == 0 || t.get_char(0) != '"' {
            return Err(Error::UnterminatedString);
        }
        let body = t.substring_char(1, t.unicode_len());
        let (rem, content) = match scan_str_body(body) {
            Ok(p) => p,
            Err(e) => {
                return Err(e);
            },
        };
        Ok((rem, Expression::Str(StrLit(content))))
    }
}

/// The length of an interpolation span up to its closing brace, tracking
/// nested brace depth.
#[verifier::loop_isolation(false)]
fn scan_interp_len(s: &str) -> (r: Option<usize>)
    ensures
        match r {
            Some(k) => spec_interp_len(s@, 0) == Some(k as int) && k < s@.len(),
            None => spec_interp_len(s@, 0) is None,
        },
{
    let len = s.unicode_len();
    let mut i: usize = 0;
    let mut depth: u64 = 0;
    proof {
        assert(s@.subrange(0, len as int) =~= s@);
    }
    loop
        invariant
            i <= len,
            depth <= i,
            interp_len_compose(
                spec_interp_len(s@.subrange(i as int, len as int), depth as int),
                i as int,
            ) == spec_interp_len(s@, 0),
        decreases len - i,
    {
        let ghost suf = s@.subrange(i as int, len as int);
        if i == len {
            proof {
                assert(suf =~= Seq::<char>::empty());
            }
            return None;
        }
        let c = s.get_char(i);
        proof {
            assert(suf[0] == c);
            assert(suf.subrange(1, suf.len() as int) =~= s@.subrange(i + 1, len as int));
        }
        if c == '}' && depth == 0 {
            return Some(i);
        }
        if c == '{' {
            depth = depth + 1;
        } else if c == '}' {
            depth = depth - 1;
        }
        i = i + 1;
    }
}

/// Scans an interpolated-string body after the opening `f"`, splitting it
/// into text and interpolation parts, up to and over the closing quote.
#[verifier::loop_isolation(false)]
fn scan_fstr_body(s: &str) -> (r: Result<(&str, Vec<FStrPart>), Error>)
    ensures
        match r {
            Ok((rem, parts)) => spec_fstr_body(s@) == Some((rem@, fparts_view(parts@))),
            Err(_) => spec_fstr_body(s@) is None,
        },
    decreases s@.len(),
{
    let len = s.unicode_len();
    if len == 0 {
        return Err(Error::UnterminatedString);
    }
    let c = s.get_char(0);
    if c == '"' {
        let out: Vec<FStrPart> = Vec::new();
        proof {
            assert(fparts_view(out@) =~= Seq::<SpecFPart>::empty());
        }
        return Ok((s.substring_char(1, len), out));
    }
    if c == '\\' {
        if len == 1 {
            return Err(Error::UnterminatedString);
        }
        let e = s.get_char(1);
        let d: char;
        if e == '{' {
            d = '{';
        } else if e == '}' {
            d = '}';
        } else if e == 'n' {
            d = '\n';
        } else if e == 't' {
            d = '\t';
        } else if e == 'r' {
            d = '\r';
        } else if e == '\\' {
            d = '\\';
        } else if e == '"' {
            d = '"';
        } else {
            return Err(Error::UnterminatedString);
        }
        proof {
            assert(fstr_escape_char(e) == Some(d));
            assert(s@.subrange(2, len as int).len() < s@.len());
        }
        let (rem, rest) = match scan_fstr_body(s.substring_char(2, len)) {
            Ok(p) => p,
            Err(err) => {
                return Err(err);
            },
        };
        let mut text = String::new();
        crate::utils::push_char(&mut text, d);
        proof {
            assert(text@ =~= seq![d]);
        }
        let ghost restv = rest@;
        let mut out = rest;
        out.insert(0, FStrPart::Text(text));
        proof {
            assert forall|k: int| 0 <= k < out@.len() implies fparts_view(out@)[k] == (seq![
                SpecFPart::Text(seq![d]),
            ] + fparts_view(restv))[k] by {
                if k > 0 {
                    assert(out@[k] == restv[k - 1]);
                }
            }
            assert(fparts_view(out@) =~= seq![SpecFPart::Text(seq![d])] + fparts_view(restv));
        }
        return Ok((rem, out));
    }
    if c == '{' {
        let inner = s.substring_char(1, len);
        let k = match scan_interp_len(inner) {
            Some(k) => k,
            None => {
                return Err(Error::UnterminatedString);
            },
        };
        let frag = inner.substring_char(0, k).to_owned();
        let after = inner.substring_char(k + 1, inner.unicode_len());
        proof {
            assert(after@.len() < s@.len());
        }
        let (rem, rest) = match scan_fstr_body(after) {
            Ok(p) => p,
            Err(err) => {
                return Err(err);
            },
        };
        let ghost fragv = frag@;
        let ghost restv = rest@;
        let mut out = rest;
        out.insert(0, FStrPart::Interp(frag));
        proof {
            assert forall|k2: int| 0 <= k2 < out@.len() implies fparts_view(out@)[k2] == (seq![
                SpecFPart::Interp(fragv),
            ] + fparts_view(restv))[k2] by {
                if k2 > 0 {
                    assert(out@[k2] == restv[k2 - 1]);
                }
            }
            assert(fparts_view(out@) =~= seq![SpecFPart::Interp(fragv)] + fparts_view(restv));
        }
        return Ok((rem, out));
    }
    proof {
        assert(s@.subrange(1, len as int).len() < s@.len());
    }
    let (rem, rest) = match scan_fstr_body(s.substring_char(1, len)) {
        Ok(p) => p,
        Err(err) => {
            return Err(err);
        },
    };
    let mut text = String::new();
    crate::utils::push_char(&mut text, c);
    proof {
        assert(text@ =~= seq![c]);
    }
    let ghost restv = rest@;
    let mut out = rest;
    out.insert(0, FStrPart::Text(text));
    proof {
        assert forall|k: int| 0 <= k < out@.len() implies fparts_view(out@)[k] == (seq![
            SpecFPart::Text(seq![c]),
        ] + fparts_view(restv))[k] by {
            if k > 0 {
                assert(out@[k] == restv[k - 1]);
            }
        }
        assert(fparts_view(out@) =~= seq![SpecFPart::Text(seq![c])] + fparts_view(restv));
    }
    Ok((rem, out))
}

} // verus!
