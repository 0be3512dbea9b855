//! Runtime values.
//!
//! Float values are kept as exact decimal literals (sign, whole part,
//! fraction digits) rather than as machine floating point, which the
//! verified core does not hold; arithmetic over them is not among the
//! evaluator's defined operations. String values carry only their interner
//! handle: two values with the same handle share storage.

use vstd::prelude::*;

use crate::chars::is_ascii_digit_char;
use crate::statement::{SpecStmt, Statement};

verus! {

/// An exact decimal literal: `whole.frac`, possibly negated.
/// The fraction is stored without trailing zeros, so equal decimals have
/// equal representations.
#[derive(Debug, Clone, PartialEq)]
pub struct Decimal {
    pub neg: bool,
    pub whole: u64,
    pub frac: String,
}

/// Spec-level image of a [`Decimal`].
#[verifier::ext_equal]
pub struct SpecDecimal {
    pub neg: bool,
    pub whole: int,
    pub frac: Seq<char>,
}

impl Decimal {
    /// The fraction holds digits only, with no trailing zero, and a zero
    /// decimal is never negated.
    pub open spec fn wf(&self) -> bool {
        &&& (forall|i: int|
            0 <= i < self.frac@.len() ==> is_ascii_digit_char(#[trigger] self.frac@[i]))
        &&& (self.frac@.len() == 0 || self.frac@[self.frac@.len() - 1] != '0')
        &&& (self.neg ==> !(self.whole == 0 && self.frac@.len() == 0))
    }

    /// A copy with the same image.
    pub fn dup(&self) -> (r: Decimal)
        ensures
            r@ == self@,
    {
        Decimal { neg: self.neg, whole: self.whole, frac: self.frac.clone() }
    }
}

impl View for Decimal {
    type V = SpecDecimal;

    open spec fn view(&self) -> SpecDecimal {
        SpecDecimal { neg: self.neg, whole: self.whole as int, frac: self.frac@ }
    }
}

/// The kind tag of a runtime value, used when reporting type errors.
#[derive(Clone, Copy, Debug, PartialEq, Eq, Structural)]
pub enum ValKind {
    Number,
    Float,
    Str,
    Bool,
    Func,
    List,
    Unit,
}

/// A runtime value produced by evaluation.
#[derive(Debug, PartialEq)]
pub enum Val {
    /// 64-bit signed integer.
    Number(i64),
    /// Exact decimal literal.
    Float(Decimal),
    /// Interned string: the handle of the shared storage holding the text.
    Str(usize),
    Bool(bool),
    /// A function: its parameter names and a copy of its body.
    Func { params: Vec<String>, body: Box<Statement> },
    /// Ordered, heterogeneous list.
    List(Vec<Val>),
    /// The result of a statement that produces nothing.
    Unit,
}

/// The images of a sequence of values.
pub open spec fn vals_view(items: Seq<Val>) -> Seq<SpecVal>
    decreases items via vals_view_decreases
{
    if items.len() == 0 {
        Seq::empty()
    } else {
        vals_view(items.drop_last()).push(items.last()@)
    }
}

#[via_fn]
proof fn vals_view_decreases(items: Seq<Val>) {
    if items.len() > 0 {
        vstd::seq::axiom_seq_subrange_decreases(items, 0, items.len() - 1);
        vstd::seq::axiom_seq_index_decreases(items, items.len() - 1);
    }
}

/// Each image in `vals_view` is the image of the value at that index.
pub proof fn lemma_vals_view(items: Seq<Val>)
    ensures
        vals_view(items).len() == items.len(),
        forall|i: int| 0 <= i < items.len() ==> vals_view(items)[i] == #[trigger] items[i]@,
    decreases items.len(),
{
    if items.len() > 0 {
        lemma_vals_view(items.drop_last());
        assert(vals_view(items) == vals_view(items.drop_last()).push(items.last()@));
        assert forall|i: int| 0 <= i < items.len() implies vals_view(items)[i] == #[trigger] items[i]@ by {
            if i < items.len() - 1 {
                assert(items.drop_last()[i] == items[i]);
                assert(vals_view(items)[i] == vals_view(items.drop_last())[i]);
            } else {
                assert(items[i] == items.last());
            }
        }
    }
}

/// Spec-level image of a [`Val`].
#[verifier::ext_equal]
pub enum SpecVal {
    Number(int),
    Float(SpecDecimal),
    Str(int),
    Bool(bool),
    Func { params: Seq<Seq<char>>, body: SpecStmt },
    List(Seq<SpecVal>),
    Unit,
}

impl View for Val {
    type V = SpecVal;

    open spec fn view(&self) -> SpecVal
        decreases self,
    {
        match self {
            Val::Number(n) => SpecVal::Number(*n as int),
            Val::Float(d) => SpecVal::Float(d@),
            Val::Str(id) => SpecVal::Str(*id as int),
            Val::Bool(b) => SpecVal::Bool(*b),
            Val::Func { params, body } => SpecVal::Func {
                params: Seq::new(params@.len(), |i: int| params@[i]@),
                body: (**body)@,
            },
            Val::List(items) => SpecVal::List(vals_view(items@)),
            Val::Unit => SpecVal::Unit,
        }
    }
}

/// Every string handle inside `v` points into an interner pool of length
/// `pool_len`.
pub open spec fn sval_ok(v: SpecVal, pool_len: int) -> bool
    decreases v, 1int,
{
    match v {
        SpecVal::Str(id) => 0 <= id < pool_len,
        SpecVal::List(items) => svals_ok(items, pool_len),
        _ => true,
    }
}

/// Every string handle inside each of `items` points into a pool of
/// length `pool_len`.
pub open spec fn svals_ok(items: Seq<SpecVal>, pool_len: int) -> bool
    decreases items, 0int,
    via svals_ok_decreases
{
    if items.len() == 0 {
        true
    } else {
        svals_ok(items.drop_last(), pool_len) && sval_ok(items.last(), pool_len)
    }
}

#[via_fn]
proof fn svals_ok_decreases(items: Seq<SpecVal>, pool_len: int) {
    if items.len() > 0 {
        vstd::seq::axiom_seq_subrange_decreases(items, 0, items.len() - 1);
        vstd::seq::axiom_seq_index_decreases(items, items.len() - 1);
    }
}

/// `svals_ok` holds exactly when every item is valid.
pub proof fn lemma_svals_ok(items: Seq<SpecVal>, n: int)
    ensures
        svals_ok(items, n) <==> (forall|i: int|
            0 <= i < items.len() ==> sval_ok(#[trigger] items[i], n)),
    decreases items.len(),
{
    if items.len() > 0 {
        lemma_svals_ok(items.drop_last(), n);
        assert(svals_ok(items, n) == (svals_ok(items.drop_last(), n) && sval_ok(
            items.last(),
            n,
        )));
        if svals_ok(items, n) {
            assert forall|i: int| 0 <= i < items.len() implies sval_ok(
                #[trigger] items[i],
                n,
            ) by {
                if i < items.len() - 1 {
                    assert(items.drop_last()[i] == items[i]);
                }
            }
        }
        if forall|i: int| 0 <= i < items.len() ==> sval_ok(#[trigger] items[i], n) {
            assert forall|i: int| 0 <= i < items.drop_last().len() implies sval_ok(
                #[trigger] items.drop_last()[i],
                n,
            ) by {
                assert(items.drop_last()[i] == items[i]);
            }
        }
    }
}

/// A list value's items inherit its handle validity.
pub proof fn lemma_sval_ok_list(items: Seq<SpecVal>, n: int)
    requires
        sval_ok(SpecVal::List(items), n),
    ensures
        forall|i: int| 0 <= i < items.len() ==> sval_ok(#[trigger] items[i], n),
{
    lemma_svals_ok(items, n);
}

/// A value valid for a pool stays valid when the pool only grows.
pub proof fn lemma_sval_ok_grow(v: SpecVal, shorter: int, longer: int)
    requires
        sval_ok(v, shorter),
        shorter <= longer,
    ensures
        sval_ok(v, longer),
    decreases v,
{
    match v {
        SpecVal::List(items) => {
            lemma_svals_ok(items, shorter);
            assert forall|i: int| 0 <= i < items.len() implies sval_ok(
                #[trigger] items[i],
                longer,
            ) by {
                lemma_sval_ok_grow(items[i], shorter, longer);
            }
            lemma_svals_ok(items, longer);
        },
        _ => {},
    }
}

impl Val {
    /// A copy of this value with the same image. Written by hand so that
    /// the copy's relation to the original is part of the contract.
    #[verifier::loop_isolation(false)]
    pub fn dup(&self) -> (r: Val)
        ensures
            r@ == self@,
        decreases self,
    {
        match self {
            Val::Number(n) => Val::Number(*n),
            Val::Float(d) => Val::Float(d.dup()),
            Val::Str(id) => Val::Str(*id),
            Val::Bool(b) => Val::Bool(*b),
            Val::Func { params, body } => {
                let mut ps: Vec<String> = Vec::new();
                let n = params.len();
                let mut i: usize = 0;
                while i < n
                    invariant
                        n == params@.len(),
                        i <= n,
                        ps@.len() == i,
                        forall|j: int| 0 <= j < i ==> ps@[j]@ == params@[j]@,
                    decreases n - i,
                {
                    ps.push(params[i].clone());
                    i = i + 1;
                }
                let r = Val::Func { params: ps, body: Box::new(body.dup()) };
                proof {
                    assert(Seq::new(ps@.len(), |i: int| ps@[i]@) =~= Seq::new(
                        params@.len(),
                        |i: int| params@[i]@,
                    ));
                }
                r
            },
            Val::List(items) => {
                let mut out: Vec<Val> = Vec::new();
                let n = items.len();
                let mut i: usize = 0;
                while i < n
                    invariant
                        n == items@.len(),
                        i <= n,
                        out@.len() == i,
                        forall|j: int| 0 <= j < i ==> #[trigger] out@[j]@ == items@[j]@,
                    decreases n - i,
                {
                    let item: &Val = &items[i];
                    proof {
                        assert(decreases_to!(*self => items@[i as int]));
                    }
                    out.push(item.dup());
                    i = i + 1;
                }
                let r = Val::List(out);
                proof {
                    lemma_vals_view(out@);
                    lemma_vals_view(items@);
                    assert forall|k: int| 0 <= k < out@.len() implies vals_view(out@)[k]
                        == vals_view(items@)[k] by {
                        assert(out@[k]@ == items@[k]@);
                    }
                    assert(vals_view(out@) =~= vals_view(items@));
                }
                r
            },
            Val::Unit => Val::Unit,
        }
    }

    /// The kind tag of this value, at the spec level.
    pub open spec fn kind_spec(&self) -> ValKind {
        match self {
            Val::Number(_) => ValKind::Number,
            Val::Float(_) => ValKind::Float,
            Val::Str(_) => ValKind::Str,
            Val::Bool(_) => ValKind::Bool,
            Val::Func { .. } => ValKind::Func,
            Val::List(_) => ValKind::List,
            Val::Unit => ValKind::Unit,
        }
    }

    /// The kind tag of this value.
    pub fn kind(&self) -> (k: ValKind)
        ensures
            k == self.kind_spec(),
            k == crate::eval::skind(self@),
    {
        match self {
            Val::Number(_) => ValKind::Number,
            Val::Float(_) => ValKind::Float,
            Val::Str(_) => ValKind::Str,
            Val::Bool(_) => ValKind::Bool,
            Val::Func { .. } => ValKind::Func,
            Val::List(_) => ValKind::List,
            Val::Unit => ValKind::Unit,
        }
    }
}

} // verus!
