//! The evaluator's specification: recursive tree-walking execution of the
//! parsed program against an environment image.
//!
//! Evaluation is exact: each spec function maps a fuel budget, a node and
//! the environment image to the environment image after the step and the
//! step's result. The executable evaluator is proved to return exactly
//! these results. The fuel budget bounds nesting depth, call depth and
//! loop iterations; exhausting it is reported as an error, so that deeply
//! recursive programs fail gracefully instead of exhausting the host
//! stack.

use vstd::prelude::*;
use vstd::string::StrSliceExecFns;
use vstd::string::StringExecFns;

use crate::env::{Env, SpecEnv, spec_lookup};
use crate::error::{Builtin, Error, SpecError};
use crate::expression::{
    exprs_view, fparts_view, lemma_exprs_view, CallExpr, Conditional, ElseBranch, Expression,
    FStrPart, Op, SpecConditional, SpecElseBranch, SpecExpr, SpecFPart, UnaryOp,
};
use crate::interner::pool_contains;
use crate::block::Block;
use crate::statement::{lemma_stmts_view, stmts_view, SpecStmt, Statement};
use crate::utils::{push_char, str_eq, strings_view};
use crate::val::{
    lemma_sval_ok_grow, lemma_svals_ok, lemma_vals_view, sval_ok, svals_ok, vals_view, Decimal,
    SpecDecimal, SpecVal, Val, ValKind,
};

verus! {

/// The evaluation budget used by the public entry points.
pub const DEFAULT_FUEL: u64 = 4096;

/// The largest list `range` will build: part of the evaluation budget,
/// which bounds the work one evaluation may do.
pub const MAX_RANGE: i64 = 1048576;

/// The first pool entry holding `s`, or the pool's length when none does.
pub open spec fn pool_find(pool: Seq<Seq<char>>, s: Seq<char>) -> int
    decreases pool.len(),
{
    if pool.len() == 0 {
        0
    } else if pool[0] == s {
        0
    } else {
        1 + pool_find(pool.drop_first(), s)
    }
}

/// `pool_find` names the first occurrence.
pub proof fn lemma_pool_find(pool: Seq<Seq<char>>, s: Seq<char>)
    ensures
        pool_contains(pool, s) ==> {
            &&& 0 <= pool_find(pool, s) < pool.len()
            &&& pool[pool_find(pool, s)] == s
        },
        !pool_contains(pool, s) ==> pool_find(pool, s) == pool.len(),
    decreases pool.len(),
{
    if pool.len() > 0 && pool[0] != s {
        lemma_pool_find(pool.drop_first(), s);
        assert forall|i: int| 0 <= i < pool.len() && pool[i] == s implies pool_contains(
            pool.drop_first(),
            s,
        ) by {
            assert(pool.drop_first()[i - 1] == pool[i]);
        }
    }
}

/// In a deduplicated pool, any entry holding `s` is the one `pool_find`
/// names.
pub proof fn lemma_pool_find_unique(pool: Seq<Seq<char>>, s: Seq<char>, i: int)
    requires
        forall|a: int, b: int| 0 <= a < b < pool.len() ==> pool[a] != pool[b],
        0 <= i < pool.len(),
        pool[i] == s,
    ensures
        pool_find(pool, s) == i,
{
    lemma_pool_find(pool, s);
}

/// Interning at the image level: the pool with `s` present, and `s`'s
/// handle in it.
pub open spec fn spec_intern(pool: Seq<Seq<char>>, s: Seq<char>) -> (Seq<Seq<char>>, int) {
    if pool_contains(pool, s) {
        (pool, pool_find(pool, s))
    } else {
        (pool.push(s), pool.len() as int)
    }
}

/// The kind tag of a value image.
pub open spec fn skind(v: SpecVal) -> ValKind {
    match v {
        SpecVal::Number(_) => ValKind::Number,
        SpecVal::Float(_) => ValKind::Float,
        SpecVal::Str(_) => ValKind::Str,
        SpecVal::Bool(_) => ValKind::Bool,
        SpecVal::Func { .. } => ValKind::Func,
        SpecVal::List(_) => ValKind::List,
        SpecVal::Unit => ValKind::Unit,
    }
}

/// Truthiness: booleans by their value; numbers when nonzero; strings and
/// lists when non-empty; functions always; unit never.
pub open spec fn truthy(v: SpecVal, pool: Seq<Seq<char>>) -> bool {
    match v {
        SpecVal::Bool(b) => b,
        SpecVal::Number(n) => n != 0,
        SpecVal::Float(d) => d.whole != 0 || d.frac.len() > 0,
        SpecVal::Str(id) => 0 <= id < pool.len() && pool[id].len() > 0,
        SpecVal::List(items) => items.len() > 0,
        SpecVal::Func { .. } => true,
        SpecVal::Unit => false,
    }
}

/// The decimal digit character for `d`.
pub open spec fn digit_char(d: int) -> char {
    if d == 0 {
        '0'
    } else if d == 1 {
        '1'
    } else if d == 2 {
        '2'
    } else if d == 3 {
        '3'
    } else if d == 4 {
        '4'
    } else if d == 5 {
        '5'
    } else if d == 6 {
        '6'
    } else if d == 7 {
        '7'
    } else if d == 8 {
        '8'
    } else {
        '9'
    }
}

/// The decimal digits of a nonnegative integer.
pub open spec fn nat_dec(n: int) -> Seq<char>
    decreases n,
{
    if n < 10 {
        seq![digit_char(n)]
    } else {
        nat_dec(n / 10).push(digit_char(n % 10))
    }
}

/// The decimal text of an integer, with a leading minus when negative.
pub open spec fn int_dec(n: int) -> Seq<char> {
    if n < 0 {
        seq!['-'] + nat_dec(-n)
    } else {
        nat_dec(n)
    }
}

/// Comma-joined text pieces.
pub open spec fn join_comma(ss: Seq<Seq<char>>) -> Seq<char>
    decreases ss.len(),
{
    if ss.len() == 0 {
        Seq::empty()
    } else if ss.len() == 1 {
        ss[0]
    } else {
        join_comma(ss.drop_last()) + seq![',', ' '] + ss.last()
    }
}

/// The textual representation of a value: what `print` writes and what the
/// surrounding session shows.
pub open spec fn render_val(v: SpecVal, pool: Seq<Seq<char>>) -> Seq<char>
    decreases v, 1int,
{
    match v {
        SpecVal::Number(n) => int_dec(n),
        SpecVal::Float(d) => (if d.neg {
            seq!['-']
        } else {
            Seq::empty()
        }) + nat_dec(d.whole) + seq!['.'] + (if d.frac.len() == 0 {
            seq!['0']
        } else {
            d.frac
        }),
        SpecVal::Str(id) => if 0 <= id < pool.len() {
            pool[id]
        } else {
            Seq::empty()
        },
        SpecVal::Bool(b) => if b {
            seq!['t', 'r', 'u', 'e']
        } else {
            seq!['f', 'a', 'l', 's', 'e']
        },
        SpecVal::Func { params, .. } => seq!['f', 'n', '('] + join_comma(params) + seq![')'],
        SpecVal::List(items) => seq!['['] + join_comma(render_items(items, pool)) + seq![']'],
        SpecVal::Unit => seq!['U', 'n', 'i', 't'],
    }
}

/// The textual representations of a list's items.
pub open spec fn render_items(items: Seq<SpecVal>, pool: Seq<Seq<char>>) -> Seq<Seq<char>>
    decreases items, 0int,
    via render_items_decreases
{
    if items.len() == 0 {
        Seq::empty()
    } else {
        render_items(items.drop_last(), pool).push(render_val(items.last(), pool))
    }
}

#[via_fn]
proof fn render_items_decreases(items: Seq<SpecVal>, pool: Seq<Seq<char>>) {
    if items.len() > 0 {
        vstd::seq::axiom_seq_subrange_decreases(items, 0, items.len() - 1);
        vstd::seq::axiom_seq_index_decreases(items, items.len() - 1);
    }
}

/// Each rendered item is the rendering of the item at that index.
pub proof fn lemma_render_items(items: Seq<SpecVal>, pool: Seq<Seq<char>>)
    ensures
        render_items(items, pool).len() == items.len(),
        forall|i: int|
            0 <= i < items.len() ==> render_items(items, pool)[i] == render_val(
                #[trigger] items[i],
                pool,
            ),
    decreases items.len(),
{
    if items.len() > 0 {
        lemma_render_items(items.drop_last(), pool);
        assert(render_items(items, pool) == render_items(items.drop_last(), pool).push(
            render_val(items.last(), pool),
        ));
        assert forall|i: int| 0 <= i < items.len() implies render_items(items, pool)[i]
            == render_val(#[trigger] items[i], pool) by {
            if i < items.len() - 1 {
                assert(items.drop_last()[i] == items[i]);
            }
        }
    }
}

/// The environment image with a fresh innermost scope.
pub open spec fn st_push(st: SpecEnv) -> SpecEnv {
    SpecEnv { scopes: st.scopes.push(Map::empty()), interner: st.interner, output: st.output }
}

/// The environment image with the innermost scope closed.
pub open spec fn st_pop(st: SpecEnv) -> SpecEnv {
    SpecEnv { scopes: st.scopes.drop_last(), interner: st.interner, output: st.output }
}

/// The environment image with `name` bound to `v` in the innermost scope.
pub open spec fn st_store(st: SpecEnv, name: Seq<char>, v: SpecVal) -> SpecEnv {
    SpecEnv {
        scopes: st.scopes.update(st.scopes.len() - 1, st.scopes.last().insert(name, v)),
        interner: st.interner,
        output: st.output,
    }
}

/// The environment image with one more printed line.
pub open spec fn st_out(st: SpecEnv, line: Seq<char>) -> SpecEnv {
    SpecEnv { scopes: st.scopes, interner: st.interner, output: st.output.push(line) }
}

/// The environment image with the given interner pool.
pub open spec fn st_pool(st: SpecEnv, pool: Seq<Seq<char>>) -> SpecEnv {
    SpecEnv { scopes: st.scopes, interner: pool, output: st.output }
}

/// A binary operation's result on two evaluated operands. Arithmetic and
/// ordering are defined on integer pairs: `/` truncates toward zero while
/// `//` is mathematical floor division; `+` also concatenates and interns
/// strings; equality compares any two values structurally; the logical
/// operators take both operands' truthiness. Any other combination is a
/// type error naming the operator and both operand kinds. Division and
/// floor division by zero are a dedicated error, and results outside the
/// 64-bit signed range are an overflow error. Float values are exact
/// decimal literals, and arithmetic over them is not among the defined
/// operations.
pub open spec fn spec_binop(op: Op, a: SpecVal, b: SpecVal, st: SpecEnv) -> (
    SpecEnv,
    Result<SpecVal, SpecError>,
) {
    if op == Op::Equal {
        (st, Ok(SpecVal::Bool(a == b)))
    } else if op == Op::NotEqual {
        (st, Ok(SpecVal::Bool(a != b)))
    } else if op == Op::And {
        (st, Ok(SpecVal::Bool(truthy(a, st.interner) && truthy(b, st.interner))))
    } else if op == Op::Or {
        (st, Ok(SpecVal::Bool(truthy(a, st.interner) || truthy(b, st.interner))))
    } else {
        match (a, b) {
            (SpecVal::Number(x), SpecVal::Number(y)) => match op {
                Op::Add => {
                    if i64::MIN <= x + y <= i64::MAX {
                        (st, Ok(SpecVal::Number(x + y)))
                    } else {
                        (st, Err(SpecError::IntegerOverflow))
                    }
                },
                Op::Sub => {
                    if i64::MIN <= x - y <= i64::MAX {
                        (st, Ok(SpecVal::Number(x - y)))
                    } else {
                        (st, Err(SpecError::IntegerOverflow))
                    }
                },
                Op::Mul => {
                    if i64::MIN <= x * y <= i64::MAX {
                        (st, Ok(SpecVal::Number(x * y)))
                    } else {
                        (st, Err(SpecError::IntegerOverflow))
                    }
                },
                Op::Div => {
                    if y == 0 {
                        (st, Err(SpecError::DivisionByZero))
                    } else if x == i64::MIN && y == -1 {
                        (st, Err(SpecError::IntegerOverflow))
                    } else {
                        (st, Ok(SpecVal::Number(truncate_div(x, y))))
                    }
                },
                Op::Floor => {
                    if y == 0 {
                        (st, Err(SpecError::DivisionByZero))
                    } else if x == i64::MIN && y == -1 {
                        (st, Err(SpecError::IntegerOverflow))
                    } else {
                        (st, Ok(SpecVal::Number(floor_div(x, y))))
                    }
                },
                Op::Less => (st, Ok(SpecVal::Bool(x < y))),
                Op::LessEq => (st, Ok(SpecVal::Bool(x <= y))),
                Op::Greater => (st, Ok(SpecVal::Bool(x > y))),
                Op::GreaterEq => (st, Ok(SpecVal::Bool(x >= y))),
                _ => (st, Err(SpecError::TypeMismatch { op, lhs: skind(a), rhs: skind(b) })),
            },
            (SpecVal::Str(x), SpecVal::Str(y)) => {
                if op == Op::Add && 0 <= x < st.interner.len() && 0 <= y < st.interner.len() {
                    let text = st.interner[x] + st.interner[y];
                    let (pool, id) = spec_intern(st.interner, text);
                    (st_pool(st, pool), Ok(SpecVal::Str(id)))
                } else {
                    (st, Err(SpecError::TypeMismatch { op, lhs: skind(a), rhs: skind(b) }))
                }
            },
            _ => (st, Err(SpecError::TypeMismatch { op, lhs: skind(a), rhs: skind(b) })),
        }
    }
}

/// Division truncating toward zero, as the host's integer division does.
/// This is the meaning of the `/` operator.
pub open spec fn truncate_div(x: int, y: int) -> int {
    if (x >= 0) == (y >= 0) {
        abs_int(x) / abs_int(y)
    } else {
        -(abs_int(x) / abs_int(y))
    }
}

/// Mathematical floor division, the meaning of the `//` operator: the
/// greatest integer not above the exact quotient. It equals the
/// truncating quotient except when the signs differ and the division is
/// inexact, where it is one less.
pub open spec fn floor_div(x: int, y: int) -> int {
    let q = truncate_div(x, y);
    if (x >= 0) == (y >= 0) || q * y == x {
        q
    } else {
        q - 1
    }
}

pub open spec fn abs_int(x: int) -> int {
    if x < 0 {
        -x
    } else {
        x
    }
}

/// A unary operation's result: logical not requires a boolean; negation
/// requires a number, and negates a float's sign exactly.
pub open spec fn spec_unop(op: UnaryOp, a: SpecVal) -> Result<SpecVal, SpecError> {
    match op {
        UnaryOp::Not => match a {
            SpecVal::Bool(b) => Ok(SpecVal::Bool(!b)),
            _ => Err(SpecError::UnaryTypeMismatch { op, operand: skind(a) }),
        },
        UnaryOp::Neg => match a {
            SpecVal::Number(n) => {
                if n == i64::MIN {
                    Err(SpecError::IntegerOverflow)
                } else {
                    Ok(SpecVal::Number(-n))
                }
            },
            SpecVal::Float(d) => {
                if d.whole == 0 && d.frac.len() == 0 {
                    Ok(SpecVal::Float(d))
                } else {
                    Ok(SpecVal::Float(SpecDecimal { neg: !d.neg, whole: d.whole, frac: d.frac }))
                }
            },
            _ => Err(SpecError::UnaryTypeMismatch { op, operand: skind(a) }),
        },
    }
}

/// Evaluates an expression.
pub open spec fn spec_eval_expr(fuel: nat, e: SpecExpr, st: SpecEnv) -> (
    SpecEnv,
    Result<SpecVal, SpecError>,
)
    decreases fuel, 0nat, 5int,
{
    if fuel == 0 {
        (st, Err(SpecError::BudgetExceeded))
    } else {
        match e {
            SpecExpr::Number(n) => (st, Ok(SpecVal::Number(n))),
            SpecExpr::Float(d) => (st, Ok(SpecVal::Float(d))),
            SpecExpr::Str(text) => {
                let (pool, id) = spec_intern(st.interner, text);
                (st_pool(st, pool), Ok(SpecVal::Str(id)))
            },
            SpecExpr::FString(parts) => {
                let (st1, r) = spec_eval_fparts((fuel - 1) as nat, parts, st);
                match r {
                    Err(err) => (st1, Err(err)),
                    Ok(text) => {
                        let (pool, id) = spec_intern(st1.interner, text);
                        (st_pool(st1, pool), Ok(SpecVal::Str(id)))
                    },
                }
            },
            SpecExpr::Bool(b) => (st, Ok(SpecVal::Bool(b))),
            SpecExpr::List(elems) => {
                let (st1, r) = spec_eval_list((fuel - 1) as nat, elems, st);
                match r {
                    Ok(vs) => (st1, Ok(SpecVal::List(vs))),
                    Err(err) => (st1, Err(err)),
                }
            },
            SpecExpr::Operation { lhs, rhs, op } => {
                let (st1, r1) = spec_eval_expr((fuel - 1) as nat, *lhs, st);
                match r1 {
                    Err(err) => (st1, Err(err)),
                    Ok(a) => {
                        let (st2, r2) = spec_eval_expr((fuel - 1) as nat, *rhs, st1);
                        match r2 {
                            Err(err) => (st2, Err(err)),
                            Ok(b) => spec_binop(op, a, b, st2),
                        }
                    },
                }
            },
            SpecExpr::Unary { op, operand } => {
                let (st1, r1) = spec_eval_expr((fuel - 1) as nat, *operand, st);
                match r1 {
                    Err(err) => (st1, Err(err)),
                    Ok(a) => (st1, spec_unop(op, a)),
                }
            },
            SpecExpr::If(c) => spec_eval_if(fuel, c, st),
            SpecExpr::While { cond, body } => spec_eval_while(fuel, *cond, body, st, SpecVal::Unit),
            SpecExpr::For { var, iterable, body } => {
                let (st1, r1) = spec_eval_expr((fuel - 1) as nat, *iterable, st);
                match r1 {
                    Err(err) => (st1, Err(err)),
                    Ok(SpecVal::List(items)) => spec_eval_for(
                        (fuel - 1) as nat,
                        var,
                        items,
                        body,
                        st1,
                        SpecVal::Unit,
                    ),
                    Ok(v) => (st1, Err(SpecError::NotIterable { found: skind(v) })),
                }
            },
            SpecExpr::Call { callee, args } => spec_eval_call(fuel, callee, args, st),
            SpecExpr::BindingUsage(name) => match spec_lookup(st.scopes, name) {
                Some(v) => (st, Ok(v)),
                None => (st, Err(SpecError::UnboundName(name))),
            },
            SpecExpr::Block(stmts) => spec_eval_block((fuel - 1) as nat, stmts, st),
        }
    }
}

/// Evaluates a conditional: branch on the condition's truthiness; Unit
/// when the condition is false and there is no else-branch.
pub open spec fn spec_eval_if(fuel: nat, c: SpecConditional, st: SpecEnv) -> (
    SpecEnv,
    Result<SpecVal, SpecError>,
)
    decreases fuel, 0nat, 4int,
{
    if fuel == 0 {
        (st, Err(SpecError::BudgetExceeded))
    } else {
        let (st1, r1) = spec_eval_expr((fuel - 1) as nat, *c.cond, st);
        match r1 {
            Err(err) => (st1, Err(err)),
            Ok(v) => {
                if truthy(v, st1.interner) {
                    spec_eval_block((fuel - 1) as nat, c.then_block, st1)
                } else {
                    match c.else_branch {
                        None => (st1, Ok(SpecVal::Unit)),
                        Some(eb) => spec_eval_else(fuel, *eb, st1),
                    }
                }
            },
        }
    }
}

/// Evaluates an else-branch: a block, or a nested conditional.
pub open spec fn spec_eval_else(fuel: nat, eb: SpecElseBranch, st: SpecEnv) -> (
    SpecEnv,
    Result<SpecVal, SpecError>,
)
    decreases fuel, 0nat, 3int,
{
    if fuel == 0 {
        (st, Err(SpecError::BudgetExceeded))
    } else {
        match eb {
            SpecElseBranch::Else(b) => spec_eval_block((fuel - 1) as nat, b, st),
            SpecElseBranch::ElseIf(c) => spec_eval_if((fuel - 1) as nat, c, st),
        }
    }
}

/// Evaluates a while loop: the condition is re-evaluated before every
/// iteration; the result is the last body value, or `last` when the loop
/// does not run again.
pub open spec fn spec_eval_while(
    fuel: nat,
    cond: SpecExpr,
    body: Seq<SpecStmt>,
    st: SpecEnv,
    last: SpecVal,
) -> (SpecEnv, Result<SpecVal, SpecError>)
    decreases fuel, 0nat, 4int,
{
    if fuel == 0 {
        (st, Err(SpecError::BudgetExceeded))
    } else {
        let (st1, r1) = spec_eval_expr((fuel - 1) as nat, cond, st);
        match r1 {
            Err(err) => (st1, Err(err)),
            Ok(v) => {
                if !truthy(v, st1.interner) {
                    (st1, Ok(last))
                } else {
                    let (st2, r2) = spec_eval_block((fuel - 1) as nat, body, st1);
                    match r2 {
                        Err(err) => (st2, Err(err)),
                        Ok(bv) => spec_eval_while((fuel - 1) as nat, cond, body, st2, bv),
                    }
                }
            },
        }
    }
}

/// Evaluates a for loop over already-evaluated items: each iteration runs
/// the body in a fresh child scope holding the loop variable; the result
/// is the last iteration's body value, or `last` for no items.
pub open spec fn spec_eval_for(
    fuel: nat,
    var: Seq<char>,
    items: Seq<SpecVal>,
    body: Seq<SpecStmt>,
    st: SpecEnv,
    last: SpecVal,
) -> (SpecEnv, Result<SpecVal, SpecError>)
    decreases fuel, items.len(), 4int,
{
    if items.len() == 0 {
        (st, Ok(last))
    } else if fuel == 0 {
        (st, Err(SpecError::BudgetExceeded))
    } else {
        let st1 = st_store(st_push(st), var, items[0]);
        let (st2, r) = spec_eval_block((fuel - 1) as nat, body, st1);
        let st3 = st_pop(st2);
        match r {
            Err(err) => (st3, Err(err)),
            Ok(bv) => spec_eval_for(fuel, var, items.drop_first(), body, st3, bv),
        }
    }
}

/// Evaluates a call: the built-ins `print`, `len` and `range` are resolved
/// before user bindings; otherwise the callee must be bound to a function
/// value and the argument count must match its parameter count. The
/// arguments are evaluated left to right in the caller's environment, then
/// bound by position in a fresh child scope of the calling environment, in
/// which the body runs. The call scope's parent is deliberately the
/// calling environment, not the environment where the function was
/// defined: function values capture no defining scope, so free names in a
/// body resolve at the call site.
pub open spec fn spec_eval_call(fuel: nat, callee: Seq<char>, args: Seq<SpecExpr>, st: SpecEnv) -> (
    SpecEnv,
    Result<SpecVal, SpecError>,
)
    decreases fuel, 0nat, 4int,
{
    if fuel == 0 {
        (st, Err(SpecError::BudgetExceeded))
    } else {
        let (st1, r1) = spec_eval_list((fuel - 1) as nat, args, st);
        match r1 {
            Err(err) => (st1, Err(err)),
            Ok(vs) => {
                if callee == seq!['p', 'r', 'i', 'n', 't'] {
                    (st_print(st1, vs), Ok(SpecVal::Unit))
                } else if callee == seq!['l', 'e', 'n'] {
                    spec_builtin_len(vs, st1)
                } else if callee == seq!['r', 'a', 'n', 'g', 'e'] {
                    spec_builtin_range(vs, st1)
                } else {
                    match spec_lookup(st1.scopes, callee) {
                        None => (st1, Err(SpecError::UnboundName(callee))),
                        Some(SpecVal::Func { params, body }) => {
                            if params.len() != vs.len() {
                                (
                                    st1,
                                    Err(
                                        SpecError::ArityMismatch {
                                            expected: params.len() as int,
                                            found: vs.len() as int,
                                        },
                                    ),
                                )
                            } else {
                                let st2 = st_bind(st_push(st1), params, vs);
                                let (st3, r) = spec_eval_stmt((fuel - 1) as nat, body, st2);
                                (st_pop(st3), r)
                            }
                        },
                        Some(_) => (st1, Err(SpecError::NotAFunction(callee))),
                    }
                }
            },
        }
    }
}

/// The environment image with each parameter bound to its argument, in
/// order.
pub open spec fn st_bind(st: SpecEnv, params: Seq<Seq<char>>, vs: Seq<SpecVal>) -> SpecEnv
    decreases params.len(),
{
    if params.len() == 0 || vs.len() == 0 {
        st
    } else {
        st_bind(st_store(st, params[0], vs[0]), params.drop_first(), vs.drop_first())
    }
}

/// The environment image after printing each value's textual
/// representation.
pub open spec fn st_print(st: SpecEnv, vs: Seq<SpecVal>) -> SpecEnv
    decreases vs.len(),
{
    if vs.len() == 0 {
        st
    } else {
        st_print(st_out(st, render_val(vs[0], st.interner)), vs.drop_first())
    }
}

/// `len(x)`: the length of a string or a list.
pub open spec fn spec_builtin_len(vs: Seq<SpecVal>, st: SpecEnv) -> (
    SpecEnv,
    Result<SpecVal, SpecError>,
) {
    if vs.len() != 1 {
        (st, Err(SpecError::ArityMismatch { expected: 1, found: vs.len() as int }))
    } else {
        match vs[0] {
            SpecVal::Str(id) => {
                if 0 <= id < st.interner.len() && st.interner[id].len() <= i64::MAX {
                    (st, Ok(SpecVal::Number(st.interner[id].len() as int)))
                } else {
                    (st, Err(SpecError::BudgetExceeded))
                }
            },
            SpecVal::List(items) => {
                if items.len() <= i64::MAX {
                    (st, Ok(SpecVal::Number(items.len() as int)))
                } else {
                    (st, Err(SpecError::BudgetExceeded))
                }
            },
            v => (st, Err(SpecError::BuiltinTypeMismatch { name: Builtin::Len, operand: skind(v) })),
        }
    }
}

/// `range(end)` or `range(start, end)`: the half-open integer sequence as
/// a list. The arguments must be integers, and the list is bounded by
/// [`MAX_RANGE`].
pub open spec fn spec_builtin_range(vs: Seq<SpecVal>, st: SpecEnv) -> (
    SpecEnv,
    Result<SpecVal, SpecError>,
) {
    if vs.len() != 1 && vs.len() != 2 {
        (st, Err(SpecError::ArityMismatch { expected: 2, found: vs.len() as int }))
    } else {
        match vs[0] {
            SpecVal::Number(a) => {
                if vs.len() == 1 {
                    spec_range_list(0, a, st)
                } else {
                    match vs[1] {
                        SpecVal::Number(b) => spec_range_list(a, b, st),
                        v => (
                            st,
                            Err(
                                SpecError::BuiltinTypeMismatch {
                                    name: Builtin::Range,
                                    operand: skind(v),
                                },
                            ),
                        ),
                    }
                }
            },
            v => (
                st,
                Err(SpecError::BuiltinTypeMismatch { name: Builtin::Range, operand: skind(v) }),
            ),
        }
    }
}

/// The list `[start, start + 1, .., end - 1]`, empty when `end <= start`.
pub open spec fn spec_range_list(start: int, end: int, st: SpecEnv) -> (
    SpecEnv,
    Result<SpecVal, SpecError>,
) {
    if end <= start {
        (st, Ok(SpecVal::List(Seq::empty())))
    } else if end - start > MAX_RANGE {
        (st, Err(SpecError::BudgetExceeded))
    } else {
        (st, Ok(SpecVal::List(Seq::new((end - start) as nat, |i: int| SpecVal::Number(start + i)))))
    }
}

/// Evaluates a list literal's elements, left to right.
pub open spec fn spec_eval_list(fuel: nat, elems: Seq<SpecExpr>, st: SpecEnv) -> (
    SpecEnv,
    Result<Seq<SpecVal>, SpecError>,
)
    decreases fuel, elems.len(), 3int,
{
    if elems.len() == 0 {
        (st, Ok(Seq::empty()))
    } else {
        let (st1, r1) = spec_eval_expr(fuel, elems[0], st);
        match r1 {
            Err(err) => (st1, Err(err)),
            Ok(v) => {
                let (st2, r2) = spec_eval_list(fuel, elems.drop_first(), st1);
                match r2 {
                    Err(err) => (st2, Err(err)),
                    Ok(vs) => (st2, Ok(seq![v] + vs)),
                }
            },
        }
    }
}

/// Evaluates an interpolated string's parts in order and concatenates the
/// results: literal text stands as itself; each interpolation span is
/// re-parsed as a full expression, which must consume the whole span,
/// evaluated, and rendered.
pub open spec fn spec_eval_fparts(fuel: nat, parts: Seq<SpecFPart>, st: SpecEnv) -> (
    SpecEnv,
    Result<Seq<char>, SpecError>,
)
    decreases fuel, parts.len(), 3int,
{
    if parts.len() == 0 {
        (st, Ok(Seq::empty()))
    } else {
        match parts[0] {
            SpecFPart::Text(txt) => {
                let (st2, r2) = spec_eval_fparts(fuel, parts.drop_first(), st);
                match r2 {
                    Err(err) => (st2, Err(err)),
                    Ok(rest) => (st2, Ok(txt + rest)),
                }
            },
            SpecFPart::Interp(src) => {
                match crate::grammar::spec_expr(src) {
                    None => (st, Err(SpecError::InvalidInterpolation(src))),
                    Some((rem, e)) => {
                        if crate::grammar::skip_ws(rem).len() != 0 {
                            (st, Err(SpecError::InvalidInterpolation(src)))
                        } else if fuel == 0 {
                            (st, Err(SpecError::BudgetExceeded))
                        } else {
                            let (st1, r1) = spec_eval_expr((fuel - 1) as nat, e, st);
                            match r1 {
                                Err(err) => (st1, Err(err)),
                                Ok(v) => {
                                    let rendered = render_val(v, st1.interner);
                                    let (st2, r2) = spec_eval_fparts(
                                        fuel,
                                        parts.drop_first(),
                                        st1,
                                    );
                                    match r2 {
                                        Err(err) => (st2, Err(err)),
                                        Ok(rest) => (st2, Ok(rendered + rest)),
                                    }
                                },
                            }
                        }
                    },
                }
            },
        }
    }
}

/// Evaluates a block: Unit when empty; otherwise the statements run in a
/// fresh child scope, which is discarded afterwards, and the block's value
/// is the last statement's.
pub open spec fn spec_eval_block(fuel: nat, stmts: Seq<SpecStmt>, st: SpecEnv) -> (
    SpecEnv,
    Result<SpecVal, SpecError>,
)
    decreases fuel, 0nat, 6int,
{
    if stmts.len() == 0 {
        (st, Ok(SpecVal::Unit))
    } else if fuel == 0 {
        (st, Err(SpecError::BudgetExceeded))
    } else {
        let (st1, r) = spec_eval_stmts((fuel - 1) as nat, stmts, st_push(st));
        (st_pop(st1), r)
    }
}

/// Evaluates a statement sequence in the current scope; the result is the
/// last statement's value, Unit when there are none.
pub open spec fn spec_eval_stmts(fuel: nat, stmts: Seq<SpecStmt>, st: SpecEnv) -> (
    SpecEnv,
    Result<SpecVal, SpecError>,
)
    decreases fuel, stmts.len(), 7int,
{
    if stmts.len() == 0 {
        (st, Ok(SpecVal::Unit))
    } else {
        let (st1, r) = spec_eval_stmt(fuel, stmts[0], st);
        match r {
            Err(err) => (st1, Err(err)),
            Ok(v) => {
                if stmts.len() == 1 {
                    (st1, Ok(v))
                } else {
                    spec_eval_stmts(fuel, stmts.drop_first(), st1)
                }
            },
        }
    }
}

/// Evaluates one statement: a binding definition stores its initializer's
/// value in the current scope and yields Unit; a function definition
/// stores a function value under its name and yields Unit; a bare
/// expression yields its value.
pub open spec fn spec_eval_stmt(fuel: nat, stmt: SpecStmt, st: SpecEnv) -> (
    SpecEnv,
    Result<SpecVal, SpecError>,
)
    decreases fuel, 0nat, 6int,
{
    if fuel == 0 {
        (st, Err(SpecError::BudgetExceeded))
    } else {
        match stmt {
            SpecStmt::BindingDef { name, val } => {
                let (st1, r) = spec_eval_expr((fuel - 1) as nat, val, st);
                match r {
                    Err(err) => (st1, Err(err)),
                    Ok(v) => (st_store(st1, name, v), Ok(SpecVal::Unit)),
                }
            },
            SpecStmt::FunctionDef { name, params, body } => (
                st_store(st, name, SpecVal::Func { params, body: *body }),
                Ok(SpecVal::Unit),
            ),
            SpecStmt::Expression(e) => spec_eval_expr((fuel - 1) as nat, e, st),
        }
    }
}

/// Evaluates a whole program: every statement in order in the current
/// scope; the result is the final statement's value, Unit for an empty
/// program.
pub open spec fn spec_eval_program(fuel: nat, stmts: Seq<SpecStmt>, st: SpecEnv) -> (
    SpecEnv,
    Result<SpecVal, SpecError>,
) {
    spec_eval_stmts(fuel, stmts, st)
}

/// Structural equality of two expressions, by their images.
#[verifier::loop_isolation(false)]
fn expr_eq(a: &Expression, b: &Expression) -> (r: bool)
    ensures
        r == (a@ == b@),
    decreases a,
{
    match (a, b) {
        (Expression::Number(x), Expression::Number(y)) => x.0 == y.0,
        (Expression::Float(x), Expression::Float(y)) => {
            let same = x.0.neg == y.0.neg && x.0.whole == y.0.whole && str_eq(
                x.0.frac.as_str(),
                y.0.frac.as_str(),
            );
            proof {
                if same {
                    assert(x.0@ =~= y.0@);
                }
            }
            same
        },
        (Expression::Str(x), Expression::Str(y)) => str_eq(x.0.as_str(), y.0.as_str()),
        (Expression::FString(xs), Expression::FString(ys)) => {
            let same = fparts_eq(xs, ys);
            proof {
                if same {
                    assert(a@ =~~= b@);
                }
            }
            same
        },
        (Expression::Bool(x), Expression::Bool(y)) => x == y,
        (Expression::List(xs), Expression::List(ys)) => {
            let same = exprs_eq(xs, ys);
            proof {
                if same {
                    assert(a@ =~~= b@);
                }
            }
            same
        },
        (
            Expression::Operation { lhs: la, rhs: ra, op: oa },
            Expression::Operation { lhs: lb, rhs: rb, op: ob },
        ) => {
            let same = oa == ob && expr_eq(la, lb) && expr_eq(ra, rb);
            proof {
                if same {
                    assert(a@ =~~= b@);
                }
            }
            same
        },
        (
            Expression::Unary { op: oa, operand: pa },
            Expression::Unary { op: ob, operand: pb },
        ) => {
            let same = oa == ob && expr_eq(pa, pb);
            proof {
                if same {
                    assert(a@ =~~= b@);
                }
            }
            same
        },
        (Expression::If(x), Expression::If(y)) => {
            let same = cond_eq(x, y);
            proof {
                if same {
                    assert(a@ =~~= b@);
                }
            }
            same
        },
        (Expression::While(x), Expression::While(y)) => {
            let same = expr_eq(&x.cond, &y.cond) && block_eq(&x.body, &y.body);
            proof {
                if same {
                    assert(a@ =~~= b@);
                }
            }
            same
        },
        (Expression::For(x), Expression::For(y)) => {
            let same = str_eq(x.var.as_str(), y.var.as_str()) && expr_eq(&x.iterable, &y.iterable)
                && block_eq(&x.body, &y.body);
            proof {
                if same {
                    assert(a@ =~~= b@);
                }
            }
            same
        },
        (Expression::Call(x), Expression::Call(y)) => {
            let same = str_eq(x.callee.as_str(), y.callee.as_str()) && exprs_eq(&x.args, &y.args);
            proof {
                if same {
                    assert(a@ =~~= b@);
                }
            }
            same
        },
        (Expression::BindingUsage(x), Expression::BindingUsage(y)) => str_eq(
            x.name.as_str(),
            y.name.as_str(),
        ),
        (Expression::Block(x), Expression::Block(y)) => {
            let same = block_eq(x, y);
            proof {
                if same {
                    assert(a@ =~~= b@);
                }
            }
            same
        },
        _ => false,
    }
}

/// Structural equality of two expression sequences, by their images.
#[verifier::loop_isolation(false)]
fn exprs_eq(a: &Vec<Expression>, b: &Vec<Expression>) -> (r: bool)
    ensures
        r == (exprs_view(a@) == exprs_view(b@)),
    decreases a@,
{
    proof {
        lemma_exprs_view(a@);
        lemma_exprs_view(b@);
    }
    if a.len() != b.len() {
        proof {
            assert(exprs_view(a@).len() != exprs_view(b@).len());
        }
        return false;
    }
    let n = a.len();
    let mut i: usize = 0;
    while i < n
        invariant
            i <= n,
            forall|j: int| 0 <= j < i ==> a@[j]@ == #[trigger] b@[j]@,
        decreases n - i,
    {
        proof {
            assert(decreases_to!(a@ => a@[i as int]));
        }
        if !expr_eq(&a[i], &b[i]) {
            proof {
                assert(exprs_view(a@)[i as int] != exprs_view(b@)[i as int]);
            }
            return false;
        }
        i = i + 1;
    }
    proof {
        assert forall|k: int| 0 <= k < exprs_view(a@).len() implies exprs_view(a@)[k]
            == exprs_view(b@)[k] by {
            assert(a@[k]@ == b@[k]@);
        }
        assert(exprs_view(a@) =~= exprs_view(b@));
    }
    true
}

/// Structural equality of two conditionals, by their images.
#[verifier::loop_isolation(false)]
fn cond_eq(a: &Conditional, b: &Conditional) -> (r: bool)
    ensures
        r == (a@ == b@),
    decreases a,
{
    if !expr_eq(&a.cond, &b.cond) {
        return false;
    }
    if !block_eq(&a.then_block, &b.then_block) {
        return false;
    }
    match (&a.else_branch, &b.else_branch) {
        (None, None) => {
            proof {
                assert(a@ =~~= b@);
            }
            true
        },
        (Some(x), Some(y)) => {
            let same = else_eq(x, y);
            proof {
                if same {
                    assert(a@ =~~= b@);
                }
            }
            same
        },
        _ => false,
    }
}

/// Structural equality of two else-branches, by their images.
#[verifier::loop_isolation(false)]
fn else_eq(a: &ElseBranch, b: &ElseBranch) -> (r: bool)
    ensures
        r == (a@ == b@),
    decreases a,
{
    match (a, b) {
        (ElseBranch::Else(x), ElseBranch::Else(y)) => {
            let same = block_eq(x, y);
            proof {
                if same {
                    assert(a@ =~~= b@);
                }
            }
            same
        },
        (ElseBranch::ElseIf(x), ElseBranch::ElseIf(y)) => {
            let same = cond_eq(x, y);
            proof {
                if same {
                    assert(a@ =~~= b@);
                }
            }
            same
        },
        _ => false,
    }
}

/// Structural equality of two blocks, by their images.
#[verifier::loop_isolation(false)]
fn block_eq(a: &crate::block::Block, b: &crate::block::Block) -> (r: bool)
    ensures
        r == (a@ == b@),
    decreases a,
{
    proof {
        lemma_stmts_view(a.statements@);
        lemma_stmts_view(b.statements@);
    }
    if a.statements.len() != b.statements.len() {
        proof {
            assert(stmts_view(a.statements@).len() != stmts_view(b.statements@).len());
        }
        return false;
    }
    let n = a.statements.len();
    let mut i: usize = 0;
    while i < n
        invariant
            i <= n,
            forall|j: int| 0 <= j < i ==> a.statements@[j]@ == #[trigger] b.statements@[j]@,
        decreases n - i,
    {
        proof {
            assert(decreases_to!(*a => a.statements@[i as int]));
        }
        if !stmt_eq(&a.statements[i], &b.statements[i]) {
            proof {
                assert(stmts_view(a.statements@)[i as int] != stmts_view(b.statements@)[i as int]);
            }
            return false;
        }
        i = i + 1;
    }
    proof {
        assert forall|k: int| 0 <= k < stmts_view(a.statements@).len() implies stmts_view(
            a.statements@,
        )[k] == stmts_view(b.statements@)[k] by {
            assert(a.statements@[k]@ == b.statements@[k]@);
        }
        assert(stmts_view(a.statements@) =~= stmts_view(b.statements@));
    }
    true
}

/// Structural equality of two parameter lists, by their images.
fn strings_eq(a: &Vec<String>, b: &Vec<String>) -> (r: bool)
    ensures
        r == (strings_view(a@) == strings_view(b@)),
{
    if a.len() != b.len() {
        proof {
            assert(strings_view(a@).len() != strings_view(b@).len());
        }
        return false;
    }
    let n = a.len();
    let mut i: usize = 0;
    while i < n
        invariant
            i <= n,
            n == a@.len() == b@.len(),
            forall|j: int| 0 <= j < i ==> a@[j]@ == #[trigger] b@[j]@,
        decreases n - i,
    {
        if !str_eq(a[i].as_str(), b[i].as_str()) {
            proof {
                assert(strings_view(a@)[i as int] != strings_view(b@)[i as int]);
            }
            return false;
        }
        i = i + 1;
    }
    proof {
        assert(strings_view(a@) =~= strings_view(b@));
    }
    true
}

/// Structural equality of two interpolated-string part lists, by their
/// images.
fn fparts_eq(a: &Vec<FStrPart>, b: &Vec<FStrPart>) -> (r: bool)
    ensures
        r == (fparts_view(a@) == fparts_view(b@)),
{
    if a.len() != b.len() {
        proof {
            assert(fparts_view(a@).len() != fparts_view(b@).len());
        }
        return false;
    }
    let n = a.len();
    let mut i: usize = 0;
    while i < n
        invariant
            i <= n,
            n == a@.len() == b@.len(),
            forall|j: int| 0 <= j < i ==> a@[j]@ == #[trigger] b@[j]@,
        decreases n - i,
    {
        let same = match (&a[i], &b[i]) {
            (FStrPart::Text(x), FStrPart::Text(y)) => str_eq(x.as_str(), y.as_str()),
            (FStrPart::Interp(x), FStrPart::Interp(y)) => str_eq(x.as_str(), y.as_str()),
            _ => false,
        };
        if !same {
            proof {
                assert(fparts_view(a@)[i as int] != fparts_view(b@)[i as int]);
            }
            return false;
        }
        i = i + 1;
    }
    proof {
        assert(fparts_view(a@) =~= fparts_view(b@));
    }
    true
}

/// Structural equality of two statements, by their images.
#[verifier::loop_isolation(false)]
fn stmt_eq(a: &Statement, b: &Statement) -> (r: bool)
    ensures
        r == (a@ == b@),
    decreases a,
{
    match (a, b) {
        (Statement::BindingDef(x), Statement::BindingDef(y)) => {
            let same = str_eq(x.name.as_str(), y.name.as_str()) && expr_eq(&x.val, &y.val);
            proof {
                if same {
                    assert(a@ =~~= b@);
                }
            }
            same
        },
        (Statement::FunctionDef(x), Statement::FunctionDef(y)) => {
            let same = str_eq(x.name.as_str(), y.name.as_str()) && strings_eq(&x.params, &y.params)
                && stmt_eq(&x.body, &y.body);
            proof {
                if same {
                    assert(a@ =~~= b@);
                }
            }
            same
        },
        (Statement::Expression(x), Statement::Expression(y)) => {
            let same = expr_eq(x, y);
            proof {
                if same {
                    assert(a@ =~~= b@);
                }
            }
            same
        },
        _ => false,
    }
}

/// Structural equality of two runtime values, by their images. Interned
/// strings compare by handle, which under the interner's deduplication is
/// content equality.
#[verifier::loop_isolation(false)]
pub fn val_eq(a: &Val, b: &Val) -> (r: bool)
    ensures
        r == (a@ == b@),
    decreases a,
{
    match (a, b) {
        (Val::Number(x), Val::Number(y)) => x == y,
        (Val::Float(x), Val::Float(y)) => {
            let same = x.neg == y.neg && x.whole == y.whole && str_eq(
                x.frac.as_str(),
                y.frac.as_str(),
            );
            proof {
                if same {
                    assert(x@ =~= y@);
                }
            }
            same
        },
        (Val::Str(x), Val::Str(y)) => x == y,
        (Val::Bool(x), Val::Bool(y)) => x == y,
        (Val::Func { params: pa, body: ba }, Val::Func { params: pb, body: bb }) => {
            let same = strings_eq(pa, pb) && stmt_eq(ba, bb);
            proof {
                if same {
                    assert(a@ =~~= b@);
                }
            }
            same
        },
        (Val::List(xs), Val::List(ys)) => {
            proof {
                lemma_vals_view(xs@);
                lemma_vals_view(ys@);
            }
            if xs.len() != ys.len() {
                proof {
                    assert(vals_view(xs@).len() != vals_view(ys@).len());
                }
                return false;
            }
            let n = xs.len();
            let mut i: usize = 0;
            while i < n
                invariant
                    i <= n,
                    forall|j: int| 0 <= j < i ==> xs@[j]@ == #[trigger] ys@[j]@,
                decreases n - i,
            {
                proof {
                    assert(decreases_to!(*a => xs@[i as int]));
                }
                if !val_eq(&xs[i], &ys[i]) {
                    proof {
                        assert(vals_view(xs@)[i as int] != vals_view(ys@)[i as int]);
                    }
                    return false;
                }
                i = i + 1;
            }
            proof {
                assert forall|k: int| 0 <= k < vals_view(xs@).len() implies vals_view(xs@)[k]
                    == vals_view(ys@)[k] by {
                    assert(xs@[k]@ == ys@[k]@);
                }
                assert(vals_view(xs@) =~= vals_view(ys@));
                assert(a@ =~~= b@);
            }
            true
        },
        (Val::Unit, Val::Unit) => true,
        _ => false,
    }
}

/// The decimal digit character for `d`.
fn digit_char_exec(d: u64) -> (c: char)
    requires
        d <= 9,
    ensures
        c == digit_char(d as int),
{
    if d == 0 {
        '0'
    } else if d == 1 {
        '1'
    } else if d == 2 {
        '2'
    } else if d == 3 {
        '3'
    } else if d == 4 {
        '4'
    } else if d == 5 {
        '5'
    } else if d == 6 {
        '6'
    } else if d == 7 {
        '7'
    } else if d == 8 {
        '8'
    } else {
        '9'
    }
}

/// The decimal text of a nonnegative integer.
pub(crate) fn nat_to_string(n: u64) -> (r: String)
    ensures
        r@ == nat_dec(n as int),
    decreases n,
{
    if n < 10 {
        let mut s = String::new();
        push_char(&mut s, digit_char_exec(n));
        proof {
            assert(Seq::<char>::empty().push(digit_char(n as int)) =~= seq![
                digit_char(n as int),
            ]);
        }
        s
    } else {
        let mut s = nat_to_string(n / 10);
        push_char(&mut s, digit_char_exec(n % 10));
        s
    }
}

/// The decimal text of an integer, with a leading minus when negative.
pub fn int_to_string(n: i64) -> (r: String)
    ensures
        r@ == int_dec(n as int),
{
    if n >= 0 {
        nat_to_string(n as u64)
    } else {
        let m: u64 = if n == i64::MIN {
            9223372036854775808u64
        } else {
            (-n) as u64
        };
        let mut s = String::new();
        push_char(&mut s, '-');
        let digits = nat_to_string(m);
        s.append(digits.as_str());
        proof {
            assert(Seq::<char>::empty().push('-') =~= seq!['-']);
        }
        s
    }
}

/// The image of an evaluation result.
pub open spec fn res_view(r: Result<Val, Error>) -> Result<SpecVal, SpecError> {
    match r {
        Ok(v) => Ok(v@),
        Err(e) => Err(e@),
    }
}

/// What every evaluation step guarantees: the environment moved exactly to
/// the state the specification names, the result is the one it names, the
/// scope depth is restored, the interner only grew, and a returned value's
/// string handles are valid.
pub open spec fn evals_to(
    pre: SpecEnv,
    post: SpecEnv,
    expect: (SpecEnv, Result<SpecVal, SpecError>),
    r: Result<Val, Error>,
) -> bool {
    &&& expect.0 == post
    &&& expect.1 == res_view(r)
    &&& post.scopes.len() == pre.scopes.len()
    &&& post.interner.len() >= pre.interner.len()
    &&& (r matches Ok(v) ==> sval_ok(v@, post.interner.len() as int))
}

/// Executable truthiness.
fn truthy_exec(v: &Val, env: &Env) -> (b: bool)
    requires
        env.wf(),
        sval_ok(v@, env@.interner.len() as int),
    ensures
        b == truthy(v@, env@.interner),
{
    match v {
        Val::Bool(b) => *b,
        Val::Number(n) => *n != 0,
        Val::Float(d) => d.whole != 0 || d.frac.unicode_len() > 0,
        Val::Str(id) => {
            proof {
                assert(v@ == SpecVal::Str(*id as int));
            }
            let text = env.interned(*id);
            text.as_str().unicode_len() > 0
        },
        Val::List(items) => {
            proof {
                lemma_vals_view(items@);
            }
            items.len() > 0
        },
        Val::Func { .. } => true,
        Val::Unit => false,
    }
}

/// Truncating 64-bit signed division. The divisor is nonzero and the one
/// overflowing pair is excluded, so the quotient always fits.
fn trunc_div_i64(x: i64, y: i64) -> (r: i64)
    requires
        y != 0,
        !(x == i64::MIN && y == -1),
    ensures
        r as int == truncate_div(x as int, y as int),
{
    match x.checked_div(y) {
        Some(z) => {
            proof {
                assert(z as int == truncate_div(x as int, y as int));
            }
            z
        },
        None => {
            proof {
                let xi = x as int;
                let di = y as int;
                if xi > 0 && di > 0 {
                    assert(0 <= xi / di <= xi) by (nonlinear_arith)
                        requires
                            xi > 0,
                            di > 0,
                    ;
                } else if xi < 0 && di < 0 {
                    assert(0 <= (xi * -1) / (di * -1) <= i64::MAX) by (nonlinear_arith)
                        requires
                            i64::MIN <= xi < 0,
                            di <= -2,
                    ;
                } else if xi < 0 && di > 0 {
                    assert(i64::MIN <= ((xi * -1) / di) * -1 <= 0) by (nonlinear_arith)
                        requires
                            i64::MIN <= xi < 0,
                            di > 0,
                    ;
                } else if xi > 0 && di < 0 {
                    assert(i64::MIN <= (xi / (di * -1)) * -1 <= 0) by (nonlinear_arith)
                        requires
                            0 < xi <= i64::MAX,
                            di < 0,
                    ;
                }
                assert(false);
            }
            0
        },
    }
}

/// Floor 64-bit signed division: the truncating quotient, corrected
/// downward when the signs differ and the division is inexact.
fn floor_div_i64(x: i64, y: i64) -> (r: i64)
    requires
        y != 0,
        !(x == i64::MIN && y == -1),
    ensures
        r as int == floor_div(x as int, y as int),
{
    let t = trunc_div_i64(x, y);
    if (x >= 0) == (y >= 0) {
        return t;
    }
    proof {
        let xi = x as int;
        let yi = y as int;
        let q = abs_int(xi) / abs_int(yi);
        assert(t as int == -q);
        if yi > 0 {
            assert(i64::MIN <= (-q) * yi <= i64::MAX) by (nonlinear_arith)
                requires
                    q == (xi * -1) / yi,
                    i64::MIN <= xi < 0,
                    0 < yi <= i64::MAX,
            ;
        } else {
            assert(i64::MIN <= (-q) * yi <= i64::MAX) by (nonlinear_arith)
                requires
                    q == xi / (yi * -1),
                    0 <= xi <= i64::MAX,
                    i64::MIN <= yi < 0,
            ;
        }
    }
    match t.checked_mul(y) {
        Some(p) => {
            if p == x {
                t
            } else {
                proof {
                    let xi = x as int;
                    let yi = y as int;
                    let q = abs_int(xi) / abs_int(yi);
                    if t == i64::MIN {
                        assert(abs_int(yi) == 1 && abs_int(xi) == q) by (nonlinear_arith)
                            requires
                                q == abs_int(xi) / abs_int(yi),
                                q == -(i64::MIN as int),
                                0 <= abs_int(xi) <= -(i64::MIN as int),
                                abs_int(yi) >= 1,
                        ;
                        assert(false);
                    }
                }
                t - 1
            }
        },
        None => {
            proof {
                assert(false);
            }
            0
        },
    }
}

/// Applies a binary operator to two evaluated operands.
#[verifier::rlimit(50)]
fn apply_binop(op: Op, a: &Val, b: &Val, env: &mut Env) -> (r: Result<Val, Error>)
    requires
        old(env).wf(),
        sval_ok(a@, old(env)@.interner.len() as int),
        sval_ok(b@, old(env)@.interner.len() as int),
    ensures
        final(env).wf(),
        evals_to(old(env)@, final(env)@, spec_binop(op, a@, b@, old(env)@), r),
{
    if op == Op::Equal {
        return Ok(Val::Bool(val_eq(a, b)));
    }
    if op == Op::NotEqual {
        return Ok(Val::Bool(!val_eq(a, b)));
    }
    if op == Op::And {
        let ta = truthy_exec(a, env);
        let tb = truthy_exec(b, env);
        return Ok(Val::Bool(ta && tb));
    }
    if op == Op::Or {
        let ta = truthy_exec(a, env);
        let tb = truthy_exec(b, env);
        return Ok(Val::Bool(ta || tb));
    }
    match (a, b) {
        (Val::Number(xr), Val::Number(yr)) => {
            let x = *xr;
            let y = *yr;
            match op {
                Op::Add => match x.checked_add(y) {
                    Some(z) => Ok(Val::Number(z)),
                    None => Err(Error::IntegerOverflow),
                },
                Op::Sub => match x.checked_sub(y) {
                    Some(z) => Ok(Val::Number(z)),
                    None => Err(Error::IntegerOverflow),
                },
                Op::Mul => match x.checked_mul(y) {
                    Some(z) => Ok(Val::Number(z)),
                    None => Err(Error::IntegerOverflow),
                },
                Op::Div => {
                    if y == 0 {
                        Err(Error::DivisionByZero)
                    } else if x == i64::MIN && y == -1 {
                        Err(Error::IntegerOverflow)
                    } else {
                        Ok(Val::Number(trunc_div_i64(x, y)))
                    }
                },
                Op::Floor => {
                    if y == 0 {
                        Err(Error::DivisionByZero)
                    } else if x == i64::MIN && y == -1 {
                        Err(Error::IntegerOverflow)
                    } else {
                        Ok(Val::Number(floor_div_i64(x, y)))
                    }
                },
                Op::Less => Ok(Val::Bool(x < y)),
                Op::LessEq => Ok(Val::Bool(x <= y)),
                Op::Greater => Ok(Val::Bool(x > y)),
                Op::GreaterEq => Ok(Val::Bool(x >= y)),
                _ => Err(Error::TypeMismatch { op, lhs: a.kind(), rhs: b.kind() }),
            }
        },
        (Val::Str(xr), Val::Str(yr)) => {
            if op == Op::Add {
                proof {
                    assert(a@ == SpecVal::Str(*xr as int));
                    assert(b@ == SpecVal::Str(*yr as int));
                }
                let ta = env.interned(*xr);
                let tb = env.interned(*yr);
                let text = ta.concat(tb.as_str());
                let id = env.intern(text.as_str());
                proof {
                    let expect = spec_binop(op, a@, b@, old(env)@);
                    assert(env@ =~= expect.0);
                }
                Ok(Val::Str(id))
            } else {
                Err(Error::TypeMismatch { op, lhs: a.kind(), rhs: b.kind() })
            }
        },
        _ => Err(Error::TypeMismatch { op, lhs: a.kind(), rhs: b.kind() }),
    }
}

/// Applies a unary operator to an evaluated operand.
fn apply_unop(op: UnaryOp, a: &Val) -> (r: Result<Val, Error>)
    ensures
        match r {
            Ok(v) => spec_unop(op, a@) == Ok::<SpecVal, SpecError>(v@) && sval_ok(v@, 0),
            Err(e) => spec_unop(op, a@) == Err::<SpecVal, SpecError>(e@),
        },
{
    match op {
        UnaryOp::Not => match a {
            Val::Bool(b) => Ok(Val::Bool(!*b)),
            _ => Err(Error::UnaryTypeMismatch { op, operand: a.kind() }),
        },
        UnaryOp::Neg => match a {
            Val::Number(n) => {
                if *n == i64::MIN {
                    Err(Error::IntegerOverflow)
                } else {
                    Ok(Val::Number(-*n))
                }
            },
            Val::Float(d) => {
                if d.whole == 0 && d.frac.unicode_len() == 0 {
                    let v = Val::Float(d.dup());
                    proof {
                        assert(v@ =~~= spec_unop(op, a@)->Ok_0);
                    }
                    Ok(v)
                } else {
                    let v = Val::Float(
                        Decimal { neg: !d.neg, whole: d.whole, frac: d.frac.clone() },
                    );
                    proof {
                        assert(v@ =~~= spec_unop(op, a@)->Ok_0);
                    }
                    Ok(v)
                }
            },
            _ => Err(Error::UnaryTypeMismatch { op, operand: a.kind() }),
        },
    }
}

/// A copy of a parameter-name list with the same images.
fn clone_strings(v: &Vec<String>) -> (r: Vec<String>)
    ensures
        strings_view(r@) == strings_view(v@),
{
    let mut out: Vec<String> = Vec::new();
    let n = v.len();
    let mut i: usize = 0;
    while i < n
        invariant
            i <= n,
            n == v@.len(),
            out@.len() == i,
            forall|j: int| 0 <= j < i ==> #[trigger] out@[j]@ == v@[j]@,
        decreases n - i,
    {
        out.push(v[i].clone());
        i = i + 1;
    }
    proof {
        assert(strings_view(out@) =~= strings_view(v@));
    }
    out
}

impl Expression {
    /// Evaluates this expression against `env` with the default budget.
    pub fn eval(&self, env: &mut Env) -> (r: Result<Val, Error>)
        requires
            old(env).wf(),
        ensures
            final(env).wf(),
            evals_to(
                old(env)@,
                final(env)@,
                spec_eval_expr(DEFAULT_FUEL as nat, self@, old(env)@),
                r,
            ),
    {
        self.eval_fuel(env, DEFAULT_FUEL)
    }

    /// Evaluates this expression with an explicit budget.
    #[verifier::rlimit(60)]
    pub fn eval_fuel(&self, env: &mut Env, fuel: u64) -> (r: Result<Val, Error>)
        requires
            old(env).wf(),
        ensures
            final(env).wf(),
            evals_to(old(env)@, final(env)@, spec_eval_expr(fuel as nat, self@, old(env)@), r),
        decreases fuel, 0nat, 5int,
    {
        if fuel == 0 {
            return Err(Error::BudgetExceeded);
        }
        match self {
            Expression::Number(n) => Ok(Val::Number(n.0)),
            Expression::Float(f) => Ok(Val::Float(f.0.dup())),
            Expression::Str(sl) => {
                let id = env.intern(sl.0.as_str());
                proof {
                    assert(env@ =~= st_pool(
                        old(env)@,
                        spec_intern(old(env)@.interner, sl.0@).0,
                    ));
                }
                Ok(Val::Str(id))
            },
            Expression::FString(parts) => {
                proof {
                    assert(fparts_view(parts@).skip(0) =~= fparts_view(parts@));
                }
                match eval_fparts_from(parts, 0, env, fuel - 1) {
                    Err(e) => Err(e),
                    Ok(text) => {
                        let ghost st1 = env@;
                        let id = env.intern(text.as_str());
                        proof {
                            assert(env@ =~= st_pool(st1, spec_intern(st1.interner, text@).0));
                        }
                        Ok(Val::Str(id))
                    },
                }
            },
            Expression::Bool(b) => Ok(Val::Bool(*b)),
            Expression::List(elems) => {
                proof {
                    assert(exprs_view(elems@).skip(0) =~= exprs_view(elems@));
                }
                match eval_exprs_from(elems, 0, env, fuel - 1) {
                    Err(e) => Err(e),
                    Ok(vs) => {
                        proof {
                            lemma_vals_view(vs@);
                        }
                        Ok(Val::List(vs))
                    },
                }
            },
            Expression::Operation { lhs, rhs, op } => {
                let a = match lhs.eval_fuel(env, fuel - 1) {
                    Ok(v) => v,
                    Err(e) => {
                        return Err(e);
                    },
                };
                let ghost mid = env@.interner.len() as int;
                let b = match rhs.eval_fuel(env, fuel - 1) {
                    Ok(v) => v,
                    Err(e) => {
                        return Err(e);
                    },
                };
                proof {
                    lemma_sval_ok_grow(a@, mid, env@.interner.len() as int);
                }
                apply_binop(*op, &a, &b, env)
            },
            Expression::Unary { op, operand } => {
                let a = match operand.eval_fuel(env, fuel - 1) {
                    Ok(v) => v,
                    Err(e) => {
                        return Err(e);
                    },
                };
                match apply_unop(*op, &a) {
                    Ok(v) => {
                        proof {
                            lemma_sval_ok_grow(v@, 0, env@.interner.len() as int);
                        }
                        Ok(v)
                    },
                    Err(e) => Err(e),
                }
            },
            Expression::If(c) => eval_if(c, env, fuel),
            Expression::While(w) => eval_while(&w.cond, &w.body, env, fuel, Val::Unit),
            Expression::For(f) => {
                match f.iterable.eval_fuel(env, fuel - 1) {
                    Err(e) => Err(e),
                    Ok(Val::List(items)) => {
                        proof {
                            lemma_vals_view(items@);
                            assert(Val::List(items)@ == SpecVal::List(vals_view(items@)));
                            crate::val::lemma_sval_ok_list(
                                vals_view(items@),
                                env@.interner.len() as int,
                            );
                            assert(vals_view(items@).skip(0) =~= vals_view(items@));
                        }
                        eval_for_from(&f.var, &items, 0, &f.body, env, fuel - 1, Val::Unit)
                    },
                    Ok(v) => Err(Error::NotIterable { found: v.kind() }),
                }
            },
            Expression::Call(c) => eval_call(c, env, fuel),
            Expression::BindingUsage(b) => match env.get_binding_value_restrict(
                b.name.as_str(),
            ) {
                Ok(v) => Ok(v),
                Err(e) => Err(e),
            },
            Expression::Block(b) => b.eval_fuel(env, fuel - 1),
        }
    }
}

/// Evaluates the expressions `exprs[i..]`, left to right.
fn eval_exprs_from(exprs: &Vec<Expression>, i: usize, env: &mut Env, fuel: u64) -> (r: Result<
    Vec<Val>,
    Error,
>)
    requires
        old(env).wf(),
        i <= exprs@.len(),
    ensures
        final(env).wf(),
        final(env)@.scopes.len() == old(env)@.scopes.len(),
        final(env)@.interner.len() >= old(env)@.interner.len(),
        ({
            let expect = spec_eval_list(fuel as nat, exprs_view(exprs@).skip(i as int), old(env)@);
            &&& expect.0 == final(env)@
            &&& (match r {
                Ok(vs) => expect.1 == Ok::<Seq<SpecVal>, SpecError>(vals_view(vs@)) && svals_ok(
                    vals_view(vs@),
                    final(env)@.interner.len() as int,
                ),
                Err(e) => expect.1 == Err::<Seq<SpecVal>, SpecError>(e@),
            })
        }),
    decreases fuel, exprs@.len() - i, 3int,
{
    proof {
        lemma_exprs_view(exprs@);
    }
    if i == exprs.len() {
        let out: Vec<Val> = Vec::new();
        proof {
            assert(exprs_view(exprs@).skip(i as int) =~= Seq::<SpecExpr>::empty());
            assert(vals_view(out@) =~= Seq::<SpecVal>::empty());
            lemma_svals_ok(vals_view(out@), final(env)@.interner.len() as int);
        }
        return Ok(out);
    }
    let ghost eview = exprs_view(exprs@).skip(i as int);
    proof {
        assert(eview[0] == exprs@[i as int]@);
    }
    let v = match exprs[i].eval_fuel(env, fuel) {
        Ok(v) => v,
        Err(e) => {
            return Err(e);
        },
    };
    let ghost mid = env@.interner.len() as int;
    proof {
        assert(eview.drop_first() =~= exprs_view(exprs@).skip(i as int + 1));
    }
    let rest = match eval_exprs_from(exprs, i + 1, env, fuel) {
        Ok(vs) => vs,
        Err(e) => {
            return Err(e);
        },
    };
    let ghost vv = v@;
    let ghost restv = rest@;
    let mut out = rest;
    out.insert(0, v);
    proof {
        lemma_vals_view(out@);
        lemma_vals_view(restv);
        assert forall|k: int| 0 <= k < out@.len() implies vals_view(out@)[k] == (seq![vv]
            + vals_view(restv))[k] by {
            assert(vals_view(out@)[k] == out@[k]@);
            if k > 0 {
                assert(out@[k] == restv[k - 1]);
                assert(vals_view(restv)[k - 1] == restv[k - 1]@);
            } else {
                assert(out@[0]@ == vv);
            }
        }
        assert(vals_view(out@) =~= seq![vv] + vals_view(restv));
        let n = final(env)@.interner.len() as int;
        lemma_svals_ok(vals_view(restv), n);
        lemma_sval_ok_grow(vv, mid, n);
        lemma_svals_ok(vals_view(out@), n);
    }
    Ok(out)
}

/// Evaluates the interpolated-string parts `parts[i..]`, concatenating
/// their texts.
fn eval_fparts_from(parts: &Vec<FStrPart>, i: usize, env: &mut Env, fuel: u64) -> (r: Result<
    String,
    Error,
>)
    requires
        old(env).wf(),
        i <= parts@.len(),
    ensures
        final(env).wf(),
        final(env)@.scopes.len() == old(env)@.scopes.len(),
        final(env)@.interner.len() >= old(env)@.interner.len(),
        ({
            let expect = spec_eval_fparts(fuel as nat, fparts_view(parts@).skip(i as int), old(env)@);
            &&& expect.0 == final(env)@
            &&& expect.1 == (match r {
                Ok(text) => Ok::<Seq<char>, SpecError>(text@),
                Err(e) => Err::<Seq<char>, SpecError>(e@),
            })
        }),
    decreases fuel, parts@.len() - i, 3int,
{
    if i == parts.len() {
        proof {
            assert(fparts_view(parts@).skip(i as int) =~= Seq::<SpecFPart>::empty());
        }
        let text = String::new();
        return Ok(text);
    }
    let ghost pview = fparts_view(parts@).skip(i as int);
    proof {
        assert(pview[0] == parts@[i as int]@);
        assert(pview.drop_first() =~= fparts_view(parts@).skip(i as int + 1));
    }
    match &parts[i] {
        FStrPart::Text(txt) => {
            let rest = match eval_fparts_from(parts, i + 1, env, fuel) {
                Ok(t) => t,
                Err(e) => {
                    return Err(e);
                },
            };
            Ok(txt.clone().concat(rest.as_str()))
        },
        FStrPart::Interp(src) => {
            let (rem, e) = match Expression::new(src.as_str()) {
                Ok(p) => p,
                Err(_) => {
                    return Err(Error::InvalidInterpolation(src.clone()));
                },
            };
            let (rem2, _) = crate::utils::extract_whitespace(rem);
            if rem2.unicode_len() != 0 {
                return Err(Error::InvalidInterpolation(src.clone()));
            }
            if fuel == 0 {
                return Err(Error::BudgetExceeded);
            }
            let v = match e.eval_fuel(env, fuel - 1) {
                Ok(v) => v,
                Err(err) => {
                    return Err(err);
                },
            };
            let rendered = env.render(&v);
            let rest = match eval_fparts_from(parts, i + 1, env, fuel) {
                Ok(t) => t,
                Err(err) => {
                    return Err(err);
                },
            };
            Ok(rendered.concat(rest.as_str()))
        },
    }
}

/// Evaluates a conditional.
fn eval_if(c: &Conditional, env: &mut Env, fuel: u64) -> (r: Result<Val, Error>)
    requires
        old(env).wf(),
    ensures
        final(env).wf(),
        evals_to(old(env)@, final(env)@, spec_eval_if(fuel as nat, c@, old(env)@), r),
    decreases fuel, 0nat, 4int,
{
    if fuel == 0 {
        return Err(Error::BudgetExceeded);
    }
    let v = match c.cond.eval_fuel(env, fuel - 1) {
        Ok(v) => v,
        Err(e) => {
            return Err(e);
        },
    };
    if truthy_exec(&v, env) {
        c.then_block.eval_fuel(env, fuel - 1)
    } else {
        match &c.else_branch {
            None => Ok(Val::Unit),
            Some(eb) => eval_else(eb, env, fuel),
        }
    }
}

/// Evaluates an else-branch.
fn eval_else(eb: &ElseBranch, env: &mut Env, fuel: u64) -> (r: Result<Val, Error>)
    requires
        old(env).wf(),
    ensures
        final(env).wf(),
        evals_to(old(env)@, final(env)@, spec_eval_else(fuel as nat, eb@, old(env)@), r),
    decreases fuel, 0nat, 3int,
{
    if fuel == 0 {
        return Err(Error::BudgetExceeded);
    }
    match eb {
        ElseBranch::Else(b) => b.eval_fuel(env, fuel - 1),
        ElseBranch::ElseIf(c) => eval_if(c, env, fuel - 1),
    }
}

/// Evaluates a while loop.
fn eval_while(cond: &Expression, body: &Block, env: &mut Env, fuel: u64, last: Val) -> (r: Result<
    Val,
    Error,
>)
    requires
        old(env).wf(),
        sval_ok(last@, old(env)@.interner.len() as int),
    ensures
        final(env).wf(),
        evals_to(
            old(env)@,
            final(env)@,
            spec_eval_while(fuel as nat, cond@, body@, old(env)@, last@),
            r,
        ),
    decreases fuel, 0nat, 4int,
{
    if fuel == 0 {
        return Err(Error::BudgetExceeded);
    }
    let v = match cond.eval_fuel(env, fuel - 1) {
        Ok(v) => v,
        Err(e) => {
            return Err(e);
        },
    };
    if !truthy_exec(&v, env) {
        proof {
            lemma_sval_ok_grow(
                last@,
                old(env)@.interner.len() as int,
                env@.interner.len() as int,
            );
        }
        Ok(last)
    } else {
        let bv = match body.eval_fuel(env, fuel - 1) {
            Ok(v) => v,
            Err(e) => {
                return Err(e);
            },
        };
        eval_while(cond, body, env, fuel - 1, bv)
    }
}

/// Evaluates the iterations of a for loop over `items[i..]`.
fn eval_for_from(
    var: &String,
    items: &Vec<Val>,
    i: usize,
    body: &Block,
    env: &mut Env,
    fuel: u64,
    last: Val,
) -> (r: Result<Val, Error>)
    requires
        old(env).wf(),
        i <= items@.len(),
        forall|j: int|
            0 <= j < items@.len() ==> sval_ok(
                #[trigger] vals_view(items@)[j],
                old(env)@.interner.len() as int,
            ),
        sval_ok(last@, old(env)@.interner.len() as int),
    ensures
        final(env).wf(),
        evals_to(
            old(env)@,
            final(env)@,
            spec_eval_for(
                fuel as nat,
                var@,
                vals_view(items@).skip(i as int),
                body@,
                old(env)@,
                last@,
            ),
            r,
        ),
    decreases fuel, items@.len() - i, 4int,
{
    proof {
        lemma_vals_view(items@);
    }
    if i == items.len() {
        proof {
            assert(vals_view(items@).skip(i as int) =~= Seq::<SpecVal>::empty());
        }
        return Ok(last);
    }
    if fuel == 0 {
        return Err(Error::BudgetExceeded);
    }
    let ghost iview = vals_view(items@).skip(i as int);
    proof {
        assert(iview[0] == items@[i as int]@);
        assert(iview.drop_first() =~= vals_view(items@).skip(i as int + 1));
    }
    env.push_scope();
    env.store_binding(var.clone(), items[i].dup());
    proof {
        assert(env@ =~= st_store(st_push(old(env)@), var@, items@[i as int]@));
    }
    let r = body.eval_fuel(env, fuel - 1);
    env.pop_scope();
    proof {
        assert(env@ =~= st_pop(
            spec_eval_block(
                (fuel - 1) as nat,
                body@,
                st_store(st_push(old(env)@), var@, items@[i as int]@),
            ).0,
        ));
    }
    match r {
        Err(e) => Err(e),
        Ok(bv) => {
            proof {
                let n = env@.interner.len() as int;
                assert forall|j: int| 0 <= j < items@.len() implies sval_ok(
                    #[trigger] vals_view(items@)[j],
                    n,
                ) by {
                    lemma_sval_ok_grow(
                        vals_view(items@)[j],
                        old(env)@.interner.len() as int,
                        n,
                    );
                }
            }
            eval_for_from(var, items, i + 1, body, env, fuel, bv)
        },
    }
}

/// Prints each of `vs[i..]` in order.
fn print_from(vs: &Vec<Val>, i: usize, env: &mut Env)
    requires
        old(env).wf(),
        i <= vs@.len(),
        forall|j: int|
            0 <= j < vs@.len() ==> sval_ok(
                #[trigger] vals_view(vs@)[j],
                old(env)@.interner.len() as int,
            ),
    ensures
        final(env).wf(),
        final(env)@ == st_print(old(env)@, vals_view(vs@).skip(i as int)),
        final(env)@.scopes.len() == old(env)@.scopes.len(),
        final(env)@.interner == old(env)@.interner,
    decreases vs@.len() - i,
{
    proof {
        lemma_vals_view(vs@);
    }
    if i == vs.len() {
        proof {
            assert(vals_view(vs@).skip(i as int) =~= Seq::<SpecVal>::empty());
        }
        return ;
    }
    let ghost pview = vals_view(vs@).skip(i as int);
    proof {
        assert(pview[0] == vs@[i as int]@);
        assert(pview.drop_first() =~= vals_view(vs@).skip(i as int + 1));
    }
    let line = env.render(&vs[i]);
    env.write_output(line);
    print_from(vs, i + 1, env);
}

/// `len(x)`: the length of a string or a list.
fn builtin_len(vs: &Vec<Val>, env: &Env) -> (r: Result<Val, Error>)
    requires
        env.wf(),
        forall|j: int|
            0 <= j < vs@.len() ==> sval_ok(
                #[trigger] vals_view(vs@)[j],
                env@.interner.len() as int,
            ),
    ensures
        ({
            let expect = spec_builtin_len(vals_view(vs@), env@);
            &&& expect.0 == env@
            &&& expect.1 == res_view(r)
            &&& (r matches Ok(v) ==> sval_ok(v@, env@.interner.len() as int))
        }),
{
    proof {
        lemma_vals_view(vs@);
    }
    if vs.len() != 1 {
        return Err(Error::ArityMismatch { expected: 1, found: vs.len() });
    }
    proof {
        assert(vals_view(vs@)[0] == vs@[0]@);
    }
    match &vs[0] {
        Val::Str(id) => {
            proof {
                assert(vs@[0]@ == SpecVal::Str(*id as int));
            }
            let text = env.interned(*id);
            let n = text.as_str().unicode_len();
            if n as u64 > i64::MAX as u64 {
                Err(Error::BudgetExceeded)
            } else {
                Ok(Val::Number(n as i64))
            }
        },
        Val::List(items) => {
            proof {
                lemma_vals_view(items@);
            }
            let n = items.len();
            if n as u64 > i64::MAX as u64 {
                Err(Error::BudgetExceeded)
            } else {
                Ok(Val::Number(n as i64))
            }
        },
        v => Err(Error::BuiltinTypeMismatch { name: Builtin::Len, operand: v.kind() }),
    }
}

/// `range(end)` or `range(start, end)`.
fn builtin_range(vs: &Vec<Val>, env: &Env) -> (r: Result<Val, Error>)
    requires
        env.wf(),
    ensures
        ({
            let expect = spec_builtin_range(vals_view(vs@), env@);
            &&& expect.0 == env@
            &&& expect.1 == res_view(r)
            &&& (r matches Ok(v) ==> sval_ok(v@, env@.interner.len() as int))
        }),
{
    proof {
        lemma_vals_view(vs@);
    }
    if vs.len() != 1 && vs.len() != 2 {
        return Err(Error::ArityMismatch { expected: 2, found: vs.len() });
    }
    proof {
        assert(vals_view(vs@)[0] == vs@[0]@);
    }
    let a: i64 = match &vs[0] {
        Val::Number(a) => *a,
        v => {
            return Err(Error::BuiltinTypeMismatch { name: Builtin::Range, operand: v.kind() });
        },
    };
    let (start, end): (i64, i64) = if vs.len() == 1 {
        (0, a)
    } else {
        proof {
            assert(vals_view(vs@)[1] == vs@[1]@);
        }
        match &vs[1] {
            Val::Number(b) => (a, *b),
            v => {
                return Err(
                    Error::BuiltinTypeMismatch { name: Builtin::Range, operand: v.kind() },
                );
            },
        }
    };
    if end <= start {
        let out: Vec<Val> = Vec::new();
        proof {
            assert(vals_view(out@) =~= Seq::<SpecVal>::empty());
            lemma_svals_ok(vals_view(out@), env@.interner.len() as int);
        }
        return Ok(Val::List(out));
    }
    let count: i64 = match end.checked_sub(start) {
        Some(d) => d,
        None => {
            return Err(Error::BudgetExceeded);
        },
    };
    if count > MAX_RANGE {
        return Err(Error::BudgetExceeded);
    }
    let mut out: Vec<Val> = Vec::new();
    let mut k: i64 = 0;
    while k < count
        invariant
            0 <= k <= count,
            count == end - start,
            end <= i64::MAX,
            out@.len() == k,
            forall|j: int| 0 <= j < k ==> #[trigger] out@[j]@ == SpecVal::Number(start + j),
        decreases count - k,
    {
        out.push(Val::Number(start + k));
        k = k + 1;
    }
    proof {
        lemma_vals_view(out@);
        let target = Seq::new((end - start) as nat, |i: int| SpecVal::Number(start + i));
        assert forall|j: int| 0 <= j < vals_view(out@).len() implies vals_view(out@)[j]
            == target[j] by {
            assert(out@[j]@ == SpecVal::Number(start + j));
        }
        assert(vals_view(out@) =~= target);
        lemma_svals_ok(vals_view(out@), env@.interner.len() as int);
    }
    Ok(Val::List(out))
}

/// Binds each parameter to its argument, in order, in the innermost scope.
fn bind_params(params: &Vec<String>, vs: &Vec<Val>, env: &mut Env)
    requires
        old(env).wf(),
        params@.len() == vs@.len(),
        forall|j: int|
            0 <= j < vs@.len() ==> sval_ok(
                #[trigger] vals_view(vs@)[j],
                old(env)@.interner.len() as int,
            ),
    ensures
        final(env).wf(),
        final(env)@ == st_bind(old(env)@, strings_view(params@), vals_view(vs@)),
        final(env)@.scopes.len() == old(env)@.scopes.len(),
        final(env)@.interner == old(env)@.interner,
    decreases params@.len(),
{
    bind_params_from(params, vs, 0, env);
    proof {
        assert(strings_view(params@).skip(0) =~= strings_view(params@));
        assert(vals_view(vs@).skip(0) =~= vals_view(vs@));
    }
}

/// Binds parameters `params[i..]` to arguments `vs[i..]`, in order.
fn bind_params_from(params: &Vec<String>, vs: &Vec<Val>, i: usize, env: &mut Env)
    requires
        old(env).wf(),
        params@.len() == vs@.len(),
        i <= params@.len(),
        forall|j: int|
            0 <= j < vs@.len() ==> sval_ok(
                #[trigger] vals_view(vs@)[j],
                old(env)@.interner.len() as int,
            ),
    ensures
        final(env).wf(),
        final(env)@ == st_bind(
            old(env)@,
            strings_view(params@).skip(i as int),
            vals_view(vs@).skip(i as int),
        ),
        final(env)@.scopes.len() == old(env)@.scopes.len(),
        final(env)@.interner == old(env)@.interner,
    decreases params@.len() - i,
{
    proof {
        lemma_vals_view(vs@);
    }
    if i == params.len() {
        proof {
            assert(strings_view(params@).skip(i as int) =~= Seq::<Seq<char>>::empty());
        }
        return ;
    }
    let ghost pview = strings_view(params@).skip(i as int);
    let ghost vview = vals_view(vs@).skip(i as int);
    proof {
        assert(pview[0] == params@[i as int]@);
        assert(vview[0] == vs@[i as int]@);
        assert(pview.drop_first() =~= strings_view(params@).skip(i as int + 1));
        assert(vview.drop_first() =~= vals_view(vs@).skip(i as int + 1));
    }
    env.store_binding(params[i].clone(), vs[i].dup());
    proof {
        assert(env@ =~= st_store(old(env)@, params@[i as int]@, vs@[i as int]@));
    }
    bind_params_from(params, vs, i + 1, env);
}

/// Evaluates a call.
#[verifier::rlimit(60)]
fn eval_call(c: &CallExpr, env: &mut Env, fuel: u64) -> (r: Result<Val, Error>)
    requires
        old(env).wf(),
    ensures
        final(env).wf(),
        evals_to(
            old(env)@,
            final(env)@,
            spec_eval_call(fuel as nat, c.callee@, exprs_view(c.args@), old(env)@),
            r,
        ),
    decreases fuel, 0nat, 4int,
{
    if fuel == 0 {
        return Err(Error::BudgetExceeded);
    }
    proof {
        assert(exprs_view(c.args@).skip(0) =~= exprs_view(c.args@));
    }
    let vs = match eval_exprs_from(&c.args, 0, env, fuel - 1) {
        Ok(vs) => vs,
        Err(e) => {
            return Err(e);
        },
    };
    proof {
        reveal_strlit("print");
        reveal_strlit("len");
        reveal_strlit("range");
        assert("print"@ =~= seq!['p', 'r', 'i', 'n', 't']);
        assert("len"@ =~= seq!['l', 'e', 'n']);
        assert("range"@ =~= seq!['r', 'a', 'n', 'g', 'e']);
        lemma_vals_view(vs@);
        lemma_svals_ok(vals_view(vs@), env@.interner.len() as int);
    }
    if str_eq(c.callee.as_str(), "print") {
        proof {
            assert(vals_view(vs@).skip(0) =~= vals_view(vs@));
        }
        print_from(&vs, 0, env);
        return Ok(Val::Unit);
    }
    if str_eq(c.callee.as_str(), "len") {
        return builtin_len(&vs, env);
    }
    if str_eq(c.callee.as_str(), "range") {
        return builtin_range(&vs, env);
    }
    match env.get_binding_value(c.callee.as_str()) {
        None => Err(Error::UnboundName(c.callee.clone())),
        Some(Val::Func { params, body }) => {
            if params.len() != vs.len() {
                return Err(Error::ArityMismatch { expected: params.len(), found: vs.len() });
            }
            env.push_scope();
            proof {
                assert(env@ =~= st_push(spec_eval_list(
                    (fuel - 1) as nat,
                    exprs_view(c.args@),
                    old(env)@,
                ).0));
            }
            bind_params(&params, &vs, env);
            let r = body.eval_fuel(env, fuel - 1);
            env.pop_scope();
            r
        },
        Some(_) => Err(Error::NotAFunction(c.callee.clone())),
    }
}

impl Block {
    /// Evaluates this block against `env` with the default budget.
    pub fn eval(&self, env: &mut Env) -> (r: Result<Val, Error>)
        requires
            old(env).wf(),
        ensures
            final(env).wf(),
            evals_to(
                old(env)@,
                final(env)@,
                spec_eval_block(DEFAULT_FUEL as nat, self@, old(env)@),
                r,
            ),
    {
        self.eval_fuel(env, DEFAULT_FUEL)
    }

    /// Evaluates this block with an explicit budget: Unit when empty,
    /// otherwise the statements run in a fresh child scope and the block's
    /// value is the last statement's.
    pub fn eval_fuel(&self, env: &mut Env, fuel: u64) -> (r: Result<Val, Error>)
        requires
            old(env).wf(),
        ensures
            final(env).wf(),
            evals_to(old(env)@, final(env)@, spec_eval_block(fuel as nat, self@, old(env)@), r),
        decreases fuel, 0nat, 6int,
    {
        proof {
            lemma_stmts_view(self.statements@);
        }
        if self.statements.len() == 0 {
            return Ok(Val::Unit);
        }
        if fuel == 0 {
            return Err(Error::BudgetExceeded);
        }
        env.push_scope();
        proof {
            assert(env@ =~= st_push(old(env)@));
            assert(stmts_view(self.statements@).skip(0) =~= stmts_view(self.statements@));
        }
        let r = eval_stmts_from(&self.statements, 0, env, fuel - 1);
        env.pop_scope();
        r
    }
}

/// Evaluates the statements `stmts[i..]` in the current scope; the result
/// is the last one's value.
fn eval_stmts_from(stmts: &Vec<Statement>, i: usize, env: &mut Env, fuel: u64) -> (r: Result<
    Val,
    Error,
>)
    requires
        old(env).wf(),
        i <= stmts@.len(),
    ensures
        final(env).wf(),
        evals_to(
            old(env)@,
            final(env)@,
            spec_eval_stmts(fuel as nat, stmts_view(stmts@).skip(i as int), old(env)@),
            r,
        ),
    decreases fuel, stmts@.len() - i, 7int,
{
    proof {
        lemma_stmts_view(stmts@);
    }
    if i == stmts.len() {
        proof {
            assert(stmts_view(stmts@).skip(i as int) =~= Seq::<SpecStmt>::empty());
        }
        return Ok(Val::Unit);
    }
    let ghost sview = stmts_view(stmts@).skip(i as int);
    proof {
        assert(sview[0] == stmts@[i as int]@);
        assert(sview.drop_first() =~= stmts_view(stmts@).skip(i as int + 1));
    }
    let v = match stmts[i].eval_fuel(env, fuel) {
        Ok(v) => v,
        Err(e) => {
            return Err(e);
        },
    };
    if i == stmts.len() - 1 {
        proof {
            assert(sview.len() == 1);
        }
        Ok(v)
    } else {
        eval_stmts_from(stmts, i + 1, env, fuel)
    }
}

impl Statement {
    /// Evaluates this statement against `env` with the default budget.
    pub fn eval(&self, env: &mut Env) -> (r: Result<Val, Error>)
        requires
            old(env).wf(),
        ensures
            final(env).wf(),
            evals_to(
                old(env)@,
                final(env)@,
                spec_eval_stmt(DEFAULT_FUEL as nat, self@, old(env)@),
                r,
            ),
    {
        self.eval_fuel(env, DEFAULT_FUEL)
    }

    /// Evaluates this statement with an explicit budget.
    pub fn eval_fuel(&self, env: &mut Env, fuel: u64) -> (r: Result<Val, Error>)
        requires
            old(env).wf(),
        ensures
            final(env).wf(),
            evals_to(old(env)@, final(env)@, spec_eval_stmt(fuel as nat, self@, old(env)@), r),
        decreases fuel, 0nat, 6int,
    {
        if fuel == 0 {
            return Err(Error::BudgetExceeded);
        }
        match self {
            Statement::BindingDef(bd) => {
                let v = match bd.val.eval_fuel(env, fuel - 1) {
                    Ok(v) => v,
                    Err(e) => {
                        return Err(e);
                    },
                };
                env.store_binding(bd.name.clone(), v);
                proof {
                    let mid = spec_eval_expr((fuel - 1) as nat, bd.val@, old(env)@).0;
                    assert(env@ =~= st_store(mid, bd.name@, mid_res_val(fuel as nat, bd.val@, old(env)@)));
                }
                Ok(Val::Unit)
            },
            Statement::FunctionDef(fd) => {
                let params = clone_strings(&fd.params);
                let v = Val::Func { params, body: Box::new(fd.body.dup()) };
                proof {
                    assert(v@ =~~= SpecVal::Func {
                        params: strings_view(fd.params@),
                        body: (*fd.body)@,
                    });
                }
                env.store_binding(fd.name.clone(), v);
                proof {
                    assert(env@ =~= st_store(
                        old(env)@,
                        fd.name@,
                        SpecVal::Func { params: strings_view(fd.params@), body: (*fd.body)@ },
                    ));
                }
                Ok(Val::Unit)
            },
            Statement::Expression(e) => e.eval_fuel(env, fuel - 1),
        }
    }
}

/// The value a binding definition's initializer evaluated to.
pub open spec fn mid_res_val(fuel: nat, e: SpecExpr, st: SpecEnv) -> SpecVal {
    match spec_eval_expr((fuel - 1) as nat, e, st).1 {
        Ok(v) => v,
        Err(_) => SpecVal::Unit,
    }
}

impl crate::Parse {
    /// Evaluates every statement of the program in order against `env`;
    /// the program's result is the value of its final statement.
    pub fn eval(&self, env: &mut Env) -> (r: Result<Val, Error>)
        requires
            old(env).wf(),
        ensures
            final(env).wf(),
            evals_to(
                old(env)@,
                final(env)@,
                spec_eval_program(DEFAULT_FUEL as nat, self@, old(env)@),
                r,
            ),
    {
        proof {
            assert(stmts_view(self.0@).skip(0) =~= stmts_view(self.0@));
        }
        eval_stmts_from(&self.0, 0, env, DEFAULT_FUEL)
    }
}

} // verus!
