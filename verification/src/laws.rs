//! Laws of the language, stated over the grammar, the evaluator and the
//! environment model, and proved from their definitions.

use vstd::prelude::*;

use crate::chars::{is_ascii_digit_char, CharClass};
use crate::env::{spec_lookup, SpecEnv};
use crate::error::SpecError;
use crate::eval::{
    abs_int, digit_char, floor_div, lemma_pool_find_unique, nat_dec, render_val, spec_binop,
    spec_builtin_len, spec_builtin_range, spec_eval_block, spec_eval_call, spec_eval_expr,
    spec_eval_fparts, spec_eval_for, spec_eval_if, spec_eval_list, spec_eval_stmt,
    spec_eval_stmts, spec_eval_while, spec_eval_else, spec_intern, st_bind, st_out, st_pop, st_print,
    st_push, st_store, truncate_div,
};
use crate::expression::{SpecConditional, SpecElseBranch};
use crate::expression::{Op, SpecExpr, SpecFPart};
use crate::grammar::{
    digits_val, skip_ws, spec_atom, spec_binding_def, spec_binding_usage, spec_block, spec_bool,
    spec_call, spec_expr, spec_float, spec_for, spec_fstring, spec_function_def, spec_if,
    spec_list, spec_number, spec_op, spec_operation, spec_parse, spec_stmt, spec_stmt_seq,
    spec_string, spec_unary, spec_while,
};
use crate::interner::{pool_contains, pool_distinct};
use crate::statement::SpecStmt;
use crate::utils::{after_semicolon, ident_start, tag_matches, take_len};
use crate::val::SpecVal;

verus! {

/// On empty input every parser fails, and a statement sequence is empty.
proof fn lemma_parse_empty()
    ensures
        spec_stmt(Seq::<char>::empty()) is None,
        spec_stmt_seq(Seq::<char>::empty()) == (Seq::<char>::empty(), Seq::<SpecStmt>::empty()),
{
    let e = Seq::<char>::empty();
    assert(skip_ws(e) =~= e);
    assert(!tag_matches(seq!['v', 'a', 'l'], e));
    assert(!tag_matches(seq!['f', 'n'], e));
    assert(spec_binding_def(e) is None);
    assert(spec_function_def(e) is None);
    assert(spec_unary(e) is None);
    assert(!tag_matches(seq!['i', 'f'], e));
    assert(!tag_matches(seq!['w', 'h', 'i', 'l', 'e'], e));
    assert(!tag_matches(seq!['f', 'o', 'r'], e));
    assert(!tag_matches(seq!['t', 'r', 'u', 'e'], e));
    assert(!tag_matches(seq!['f', 'a', 'l', 's', 'e'], e));
    assert(spec_if(e) is None);
    assert(spec_while(e) is None);
    assert(spec_for(e) is None);
    assert(!ident_start(e));
    assert(spec_call(e) is None);
    assert(spec_list(e) is None);
    assert(spec_bool(e) is None);
    assert(take_len(CharClass::Digit, e) == 0);
    assert(spec_float(e) is None);
    assert(spec_number(e) is None);
    assert(spec_fstring(e) is None);
    assert(spec_string(e) is None);
    assert(spec_binding_usage(e) is None);
    assert(spec_block(e) is None);
    assert(spec_atom(e) is None);
    assert(spec_operation(e) is None);
    assert(spec_expr(e) is None);
    assert(spec_stmt(e) is None);
}

/// An all-digit input is consumed entirely by the integer-literal rule and
/// parses as a single expression statement holding its value.
#[verifier::rlimit(100)]
pub proof fn lemma_parse_integer_literal(s: Seq<char>)
    requires
        s.len() >= 1,
        forall|i: int| 0 <= i < s.len() ==> is_ascii_digit_char(#[trigger] s[i]),
        digits_val(s) <= i64::MAX,
    ensures
        spec_parse(s) == Some(seq![SpecStmt::Expression(SpecExpr::Number(digits_val(s)))]),
{
    let e = Seq::<char>::empty();
    assert(is_ascii_digit_char(s[0]));
    assert(!CharClass::Whitespace.accepts_spec(s[0]));
    crate::utils::lemma_take_len_unique(CharClass::Whitespace, s, 0);
    assert(skip_ws(s) =~= s);
    crate::utils::lemma_take_len_unique(CharClass::Digit, s, s.len());
    assert(take_len(CharClass::Digit, s) == s.len());

    // no keyword, identifier, or punctuation alternative can open with a digit
    assert(!tag_matches(seq!['v', 'a', 'l'], s)) by {
        if tag_matches(seq!['v', 'a', 'l'], s) {
            assert(s.subrange(0, 3)[0] == s[0]);
        }
    }
    assert(!tag_matches(seq!['f', 'n'], s)) by {
        if tag_matches(seq!['f', 'n'], s) {
            assert(s.subrange(0, 2)[0] == s[0]);
        }
    }
    assert(!tag_matches(seq!['i', 'f'], s)) by {
        if tag_matches(seq!['i', 'f'], s) {
            assert(s.subrange(0, 2)[0] == s[0]);
        }
    }
    assert(!tag_matches(seq!['w', 'h', 'i', 'l', 'e'], s)) by {
        if tag_matches(seq!['w', 'h', 'i', 'l', 'e'], s) {
            assert(s.subrange(0, 5)[0] == s[0]);
        }
    }
    assert(!tag_matches(seq!['f', 'o', 'r'], s)) by {
        if tag_matches(seq!['f', 'o', 'r'], s) {
            assert(s.subrange(0, 3)[0] == s[0]);
        }
    }
    assert(!tag_matches(seq!['t', 'r', 'u', 'e'], s)) by {
        if tag_matches(seq!['t', 'r', 'u', 'e'], s) {
            assert(s.subrange(0, 4)[0] == s[0]);
        }
    }
    assert(!tag_matches(seq!['f', 'a', 'l', 's', 'e'], s)) by {
        if tag_matches(seq!['f', 'a', 'l', 's', 'e'], s) {
            assert(s.subrange(0, 5)[0] == s[0]);
        }
    }
    assert(spec_binding_def(s) is None);
    assert(spec_function_def(s) is None);
    assert(spec_unary(s) is None);
    assert(spec_if(s) is None);
    assert(spec_while(s) is None);
    assert(spec_for(s) is None);
    assert(!ident_start(s));
    assert(spec_call(s) is None);
    assert(spec_list(s) is None);
    assert(spec_bool(s) is None);

    // the float rule needs a decimal point, which an all-digit input lacks
    let v = digits_val(s);
    assert(s.subrange(0, s.len() as int) =~= s);
    assert(s.subrange(s.len() as int, s.len() as int) =~= e);
    assert(spec_float(s) is None);
    assert(spec_number(s) == Some((e, v)));
    assert(spec_fstring(s) is None);
    assert(spec_string(s) is None);
    assert(spec_atom(s) == Some((e, SpecExpr::Number(v))));

    // the operand consumes everything, so no operator can follow
    assert(skip_ws(e) =~= e);
    assert(spec_op(e) is None);
    assert(spec_operation(s) is None);
    assert(spec_expr(s) == Some((e, SpecExpr::Number(v))));
    assert(spec_stmt(s) == Some((e, SpecStmt::Expression(SpecExpr::Number(v)))));

    lemma_parse_empty();
    assert(after_semicolon(e) =~= e);
    let st = SpecStmt::Expression(SpecExpr::Number(v));
    assert(spec_stmt_seq(s) == (e, seq![st] + Seq::<SpecStmt>::empty()));
    assert(seq![st] + Seq::<SpecStmt>::empty() =~= seq![st]);
    assert(spec_parse(s) == Some(seq![st]));
}

/// For every valid integer literal, parsing it and evaluating the program
/// yields exactly the integer value it denotes, in any environment, and
/// leaves the environment unchanged.
pub proof fn law_integer_literal_round_trip(s: Seq<char>, st: SpecEnv, fuel: nat)
    requires
        s.len() >= 1,
        forall|i: int| 0 <= i < s.len() ==> is_ascii_digit_char(#[trigger] s[i]),
        digits_val(s) <= i64::MAX,
        fuel >= 2,
    ensures
        spec_parse(s) is Some,
        crate::eval::spec_eval_program(fuel, spec_parse(s)->Some_0, st) == (
            st,
            Ok::<SpecVal, SpecError>(SpecVal::Number(digits_val(s))),
        ),
{
    lemma_parse_integer_literal(s);
    let v = digits_val(s);
    let stmt = SpecStmt::Expression(SpecExpr::Number(v));
    assert(spec_parse(s)->Some_0 =~= seq![stmt]);
    assert(spec_eval_expr((fuel - 1) as nat, SpecExpr::Number(v), st) == (
        st,
        Ok::<SpecVal, SpecError>(SpecVal::Number(v)),
    ));
    assert(spec_eval_stmt(fuel, stmt, st) == (st, Ok::<SpecVal, SpecError>(SpecVal::Number(v))));
    assert(seq![stmt][0] == stmt);
    assert(spec_eval_stmts(fuel, seq![stmt], st) == (
        st,
        Ok::<SpecVal, SpecError>(SpecVal::Number(v)),
    ));
}

/// Integer division and floor division by zero fail with the dedicated
/// division-by-zero error, for every dividend and every environment.
pub proof fn law_division_by_zero(x: int, op: Op, st: SpecEnv)
    requires
        op == Op::Div || op == Op::Floor,
    ensures
        spec_binop(op, SpecVal::Number(x), SpecVal::Number(0), st) == (
            st,
            Err::<SpecVal, SpecError>(SpecError::DivisionByZero),
        ),
{
}

/// Floor division is mathematical floor: its result is the greatest
/// integer not above the exact quotient. It agrees with the truncating
/// `/` exactly when the signs agree or the division is exact, and is one
/// less otherwise.
pub proof fn law_floor_division_is_floor(x: int, y: int)
    requires
        y != 0,
    ensures
        y > 0 ==> y * floor_div(x, y) <= x < y * (floor_div(x, y) + 1),
        y < 0 ==> y * (floor_div(x, y) + 1) < x <= y * floor_div(x, y),
        ((x >= 0) == (y >= 0) || truncate_div(x, y) * y == x) ==> floor_div(x, y) == truncate_div(
            x,
            y,
        ),
        (!((x >= 0) == (y >= 0)) && truncate_div(x, y) * y != x) ==> floor_div(x, y)
            == truncate_div(x, y) - 1,
{
    let a = abs_int(x);
    let b = abs_int(y);
    let q = a / b;
    assert(a == b * q + a % b && 0 <= a % b < b) by (nonlinear_arith)
        requires
            a >= 0,
            b >= 1,
            q == a / b,
    ;
    let f = floor_div(x, y);
    if (x >= 0) == (y >= 0) {
        if y > 0 {
            assert(y * f <= x < y * (f + 1)) by (nonlinear_arith)
                requires
                    f == q,
                    y == b,
                    b >= 1,
                    a == b * q + a % b,
                    0 <= a % b < b,
                    a == x,
            ;
        } else {
            assert(y * (f + 1) < x <= y * f) by (nonlinear_arith)
                requires
                    f == q,
                    y == -b,
                    b >= 1,
                    a == b * q + a % b,
                    0 <= a % b < b,
                    a == -x,
            ;
        }
    } else {
        let t = truncate_div(x, y);
        assert(t == -q);
        if y > 0 {
            if t * y == x {
                assert(y * f <= x < y * (f + 1)) by (nonlinear_arith)
                    requires
                        f == -q,
                        (-q) * y == x,
                        y == b,
                        b >= 1,
                        a == -x,
                ;
            } else {
                assert(y * f <= x < y * (f + 1)) by (nonlinear_arith)
                    requires
                        f == -q - 1,
                        (-q) * y != x,
                        y == b,
                        b >= 1,
                        a == b * q + a % b,
                        0 <= a % b < b,
                        a == -x,
                ;
            }
        } else {
            if t * y == x {
                assert(y * (f + 1) < x <= y * f) by (nonlinear_arith)
                    requires
                        f == -q,
                        (-q) * y == x,
                        y == -b,
                        b >= 1,
                        a == x,
                ;
            } else {
                assert(y * (f + 1) < x <= y * f) by (nonlinear_arith)
                    requires
                        f == -q - 1,
                        (-q) * y != x,
                        y == -b,
                        b >= 1,
                        a == b * q + a % b,
                        0 <= a % b < b,
                        a == x,
                ;
            }
        }
    }
}

/// Interning is deduplicating: interning a text twice yields the same
/// handle the second time, and allocates nothing new.
pub proof fn law_intern_deduplicates(pool: Seq<Seq<char>>, text: Seq<char>)
    requires
        pool_distinct(pool),
    ensures
        ({
            let (pool1, id1) = spec_intern(pool, text);
            let (pool2, id2) = spec_intern(pool1, text);
            pool2 == pool1 && id2 == id1 && pool_distinct(pool1)
        }),
{
    let (pool1, id1) = spec_intern(pool, text);
    if pool_contains(pool, text) {
        crate::eval::lemma_pool_find(pool, text);
    } else {
        assert forall|i: int, j: int| 0 <= i < j < pool1.len() implies pool1[i] != pool1[j] by {
            if j == pool1.len() - 1 {
                assert(pool1[j] == text);
                assert(pool1[i] == pool[i]);
            }
        }
        assert(pool_contains(pool1, text)) by {
            assert(pool1[pool1.len() - 1] == text);
        }
        lemma_pool_find_unique(pool1, text, id1);
    }
}

/// Evaluating the same string literal twice yields two values with the
/// same shared storage handle, and the second evaluation allocates
/// nothing.
pub proof fn law_string_literal_shares_storage(text: Seq<char>, st: SpecEnv, fuel: nat)
    requires
        fuel >= 1,
        pool_distinct(st.interner),
    ensures
        ({
            let (st1, r1) = spec_eval_expr(fuel, SpecExpr::Str(text), st);
            let (st2, r2) = spec_eval_expr(fuel, SpecExpr::Str(text), st1);
            r1 == r2 && st2.interner == st1.interner
        }),
{
    law_intern_deduplicates(st.interner, text);
    let (st1, r1) = spec_eval_expr(fuel, SpecExpr::Str(text), st);
    assert(st1.interner == spec_intern(st.interner, text).0);
}

/// Two concatenations whose results are the same text intern to the same
/// shared storage handle.
pub proof fn law_concat_interns_to_shared_storage(
    st: SpecEnv,
    x1: int,
    y1: int,
    x2: int,
    y2: int,
)
    requires
        pool_distinct(st.interner),
        0 <= x1 < st.interner.len(),
        0 <= y1 < st.interner.len(),
        0 <= x2 < st.interner.len(),
        0 <= y2 < st.interner.len(),
        st.interner[x1] + st.interner[y1] == st.interner[x2] + st.interner[y2],
    ensures
        ({
            let (stA, rA) = spec_binop(Op::Add, SpecVal::Str(x1), SpecVal::Str(y1), st);
            let (stB, rB) = spec_binop(Op::Add, SpecVal::Str(x2), SpecVal::Str(y2), stA);
            rA == rB && stB.interner == stA.interner
        }),
{
    let text = st.interner[x1] + st.interner[y1];
    law_intern_deduplicates(st.interner, text);
    let (stA, rA) = spec_binop(Op::Add, SpecVal::Str(x1), SpecVal::Str(y1), st);
    assert(stA.interner == spec_intern(st.interner, text).0);
}

/// A binding defined in a child scope does not leak: once the child scope
/// is closed, the outer scopes are exactly what they were.
pub proof fn law_child_binding_does_not_leak(st: SpecEnv, name: Seq<char>, v: SpecVal)
    ensures
        st_pop(st_store(st_push(st), name, v)).scopes == st.scopes,
        st_pop(st_store(st_push(st), name, v)).interner == st.interner,
{
    assert(st_pop(st_store(st_push(st), name, v)).scopes =~= st.scopes);
}

/// A binding defined in a parent scope is visible from a child scope.
pub proof fn law_parent_binding_visible_from_child(st: SpecEnv, name: Seq<char>)
    requires
        st.scopes.len() >= 1,
    ensures
        spec_lookup(st_push(st).scopes, name) == spec_lookup(st.scopes, name),
{
    assert(st_push(st).scopes.last() =~= Map::<Seq<char>, SpecVal>::empty());
    assert(!st_push(st).scopes.last().contains_key(name));
    assert(st_push(st).scopes.drop_last() =~= st.scopes);
}

/// Shadowing in a child scope hides the parent's binding while the child
/// is open, and does not mutate it: after the child closes, lookup finds
/// the parent's value again.
pub proof fn law_shadowing_does_not_mutate_parent(st: SpecEnv, name: Seq<char>, v: SpecVal)
    requires
        st.scopes.len() >= 1,
    ensures
        spec_lookup(st_store(st_push(st), name, v).scopes, name) == Some(v),
        spec_lookup(st_pop(st_store(st_push(st), name, v)).scopes, name) == spec_lookup(
            st.scopes,
            name,
        ),
{
    let st2 = st_store(st_push(st), name, v);
    assert(st2.scopes.last() =~= Map::<Seq<char>, SpecVal>::empty().insert(name, v));
    assert(st2.scopes.last().contains_key(name));
    assert(st2.scopes.last()[name] == v);
    law_child_binding_does_not_leak(st, name, v);
}

/// Calling a function with the wrong number of arguments fails with an
/// arity error naming both counts, whatever the arguments evaluated to.
pub proof fn law_arity_mismatch(
    fuel: nat,
    callee: Seq<char>,
    args: Seq<SpecExpr>,
    st: SpecEnv,
    vs: Seq<SpecVal>,
    params: Seq<Seq<char>>,
    body: SpecStmt,
)
    requires
        fuel >= 1,
        callee != seq!['p', 'r', 'i', 'n', 't'],
        callee != seq!['l', 'e', 'n'],
        callee != seq!['r', 'a', 'n', 'g', 'e'],
        spec_eval_list((fuel - 1) as nat, args, st).1 == Ok::<Seq<SpecVal>, SpecError>(vs),
        spec_lookup(spec_eval_list((fuel - 1) as nat, args, st).0.scopes, callee) == Some(
            SpecVal::Func { params, body },
        ),
        params.len() != vs.len(),
    ensures
        spec_eval_call(fuel, callee, args, st).1 == Err::<SpecVal, SpecError>(
            SpecError::ArityMismatch { expected: params.len() as int, found: vs.len() as int },
        ),
{
}

/// Applying `+` to a number and a string fails with a type error naming
/// the operator and both operand kinds.
pub proof fn law_add_number_string_type_error(x: int, id: int, st: SpecEnv)
    ensures
        spec_binop(Op::Add, SpecVal::Number(x), SpecVal::Str(id), st) == (
            st,
            Err::<SpecVal, SpecError>(
                SpecError::TypeMismatch {
                    op: Op::Add,
                    lhs: crate::val::ValKind::Number,
                    rhs: crate::val::ValKind::Str,
                },
            ),
        ),
{
}

/// Re-parsing an interpolation fragment must yield a single expression
/// consuming the whole fragment; otherwise the overall evaluation fails,
/// whatever parts follow and whatever the environment holds.
pub proof fn law_interpolation_must_consume_fragment(
    fuel: nat,
    src: Seq<char>,
    rest: Seq<SpecFPart>,
    st: SpecEnv,
)
    requires
        match spec_expr(src) {
            None => true,
            Some((rem, _)) => skip_ws(rem).len() != 0,
        },
    ensures
        spec_eval_fparts(fuel, seq![SpecFPart::Interp(src)] + rest, st) == (
            st,
            Err::<Seq<char>, SpecError>(SpecError::InvalidInterpolation(src)),
        ),
{
    let parts = seq![SpecFPart::Interp(src)] + rest;
    assert(parts.len() > 0);
    assert(parts[0] == SpecFPart::Interp(src));
}

/// The decimal text of a nonnegative integer consists of digits.
proof fn lemma_nat_dec_digits(n: int)
    requires
        n >= 0,
    ensures
        nat_dec(n).len() >= 1,
        forall|i: int| 0 <= i < nat_dec(n).len() ==> is_ascii_digit_char(#[trigger] nat_dec(n)[i]),
    decreases n,
{
    if n < 10 {
    } else {
        lemma_nat_dec_digits(n / 10);
        assert forall|i: int| 0 <= i < nat_dec(n).len() implies is_ascii_digit_char(
            #[trigger] nat_dec(n)[i],
        ) by {
            if i < nat_dec(n).len() - 1 {
                assert(nat_dec(n)[i] == nat_dec(n / 10)[i]);
            } else {
                assert(nat_dec(n)[i] == digit_char(n % 10));
            }
        }
    }
}

/// Reading back the decimal text of a nonnegative integer yields the
/// integer.
proof fn lemma_digits_val_nat_dec(n: int)
    requires
        n >= 0,
    ensures
        digits_val(nat_dec(n)) == n,
    decreases n,
{
    if n < 10 {
        assert(nat_dec(n) == seq![digit_char(n)]);
        assert(nat_dec(n).drop_last() =~= Seq::<char>::empty());
        assert(nat_dec(n).last() == digit_char(n));
        assert(digits_val(Seq::<char>::empty()) == 0);
        assert(digits_val(nat_dec(n)) == crate::chars::digit_value(digit_char(n)));
    } else {
        lemma_digits_val_nat_dec(n / 10);
        assert(nat_dec(n).drop_last() =~= nat_dec(n / 10));
        assert(nat_dec(n).last() == digit_char(n % 10));
    }
}

/// Round trip: the textual form the evaluator renders for a nonnegative
/// integer value is accepted by the parser and evaluates back to exactly
/// that value. (A negative value renders with a leading minus, which the
/// grammar reads back through the unary negation rule.)
pub proof fn law_number_render_round_trip(n: int, pool: Seq<Seq<char>>, st: SpecEnv, fuel: nat)
    requires
        0 <= n <= i64::MAX,
        fuel >= 2,
    ensures
        spec_parse(render_val(SpecVal::Number(n), pool)) is Some,
        crate::eval::spec_eval_program(
            fuel,
            spec_parse(render_val(SpecVal::Number(n), pool))->Some_0,
            st,
        ).1 == Ok::<SpecVal, SpecError>(SpecVal::Number(n)),
{
    assert(render_val(SpecVal::Number(n), pool) == nat_dec(n));
    lemma_nat_dec_digits(n);
    lemma_digits_val_nat_dec(n);
    law_integer_literal_round_trip(nat_dec(n), st, fuel);
}

/// A binary operator reads its operands and at most interns a string: it
/// never touches the scopes.
proof fn lemma_binop_preserves_scopes(op: Op, a: SpecVal, b: SpecVal, st: SpecEnv)
    ensures
        spec_binop(op, a, b, st).0.scopes == st.scopes,
{
}

/// Printing values appends to the output only.
proof fn lemma_print_preserves_scopes(st: SpecEnv, vs: Seq<SpecVal>)
    ensures
        st_print(st, vs).scopes == st.scopes,
    decreases vs.len(),
{
    if vs.len() > 0 {
        lemma_print_preserves_scopes(st_out(st, render_val(vs[0], st.interner)), vs.drop_first());
    }
}

/// Binding parameters writes into the innermost scope only: the scope
/// count and every outer scope are untouched.
proof fn lemma_bind_preserves_below(st: SpecEnv, params: Seq<Seq<char>>, vs: Seq<SpecVal>)
    requires
        st.scopes.len() >= 1,
    ensures
        st_bind(st, params, vs).scopes.len() == st.scopes.len(),
        forall|i: int|
            0 <= i < st.scopes.len() - 1 ==> #[trigger] st_bind(st, params, vs).scopes[i]
                == st.scopes[i],
    decreases params.len(),
{
    if params.len() > 0 && vs.len() > 0 {
        lemma_bind_preserves_below(
            st_store(st, params[0], vs[0]),
            params.drop_first(),
            vs.drop_first(),
        );
    }
}

/// Evaluating an expression leaves every scope exactly as it was: only
/// statements write bindings, and every statement a sub-term runs happens
/// in a child scope that the evaluator opens and discards itself.
pub proof fn law_expression_leaves_scopes_unchanged(fuel: nat, e: SpecExpr, st: SpecEnv)
    ensures
        spec_eval_expr(fuel, e, st).0.scopes == st.scopes,
    decreases fuel, 0nat, 5int,
{
    if fuel != 0 {
        match e {
            SpecExpr::FString(parts) => {
                lemma_fparts_preserve_scopes((fuel - 1) as nat, parts, st);
            },
            SpecExpr::List(elems) => {
                lemma_list_preserves_scopes((fuel - 1) as nat, elems, st);
            },
            SpecExpr::Operation { lhs, rhs, op } => {
                law_expression_leaves_scopes_unchanged((fuel - 1) as nat, *lhs, st);
                let (st1, r1) = spec_eval_expr((fuel - 1) as nat, *lhs, st);
                if r1 is Ok {
                    law_expression_leaves_scopes_unchanged((fuel - 1) as nat, *rhs, st1);
                    let (st2, r2) = spec_eval_expr((fuel - 1) as nat, *rhs, st1);
                    if r2 is Ok {
                        lemma_binop_preserves_scopes(op, r1->Ok_0, r2->Ok_0, st2);
                    }
                }
            },
            SpecExpr::Unary { op, operand } => {
                law_expression_leaves_scopes_unchanged((fuel - 1) as nat, *operand, st);
            },
            SpecExpr::If(c) => {
                lemma_if_preserves_scopes(fuel, c, st);
            },
            SpecExpr::While { cond, body } => {
                lemma_while_preserves_scopes(fuel, *cond, body, st, SpecVal::Unit);
            },
            SpecExpr::For { var, iterable, body } => {
                law_expression_leaves_scopes_unchanged((fuel - 1) as nat, *iterable, st);
                let (st1, r1) = spec_eval_expr((fuel - 1) as nat, *iterable, st);
                match r1 {
                    Ok(SpecVal::List(items)) => {
                        lemma_for_preserves_scopes(
                            (fuel - 1) as nat,
                            var,
                            items,
                            body,
                            st1,
                            SpecVal::Unit,
                        );
                    },
                    _ => {},
                }
            },
            SpecExpr::Call { callee, args } => {
                lemma_call_preserves_scopes(fuel, callee, args, st);
            },
            SpecExpr::Block(stmts) => {
                law_block_leaves_scopes_unchanged((fuel - 1) as nat, stmts, st);
            },
            _ => {},
        }
    }
}

/// Evaluating a conditional leaves every scope exactly as it was.
proof fn lemma_if_preserves_scopes(fuel: nat, c: SpecConditional, st: SpecEnv)
    ensures
        spec_eval_if(fuel, c, st).0.scopes == st.scopes,
    decreases fuel, 0nat, 4int,
{
    if fuel != 0 {
        law_expression_leaves_scopes_unchanged((fuel - 1) as nat, *c.cond, st);
        let (st1, r1) = spec_eval_expr((fuel - 1) as nat, *c.cond, st);
        if r1 is Ok {
            if crate::eval::truthy(r1->Ok_0, st1.interner) {
                law_block_leaves_scopes_unchanged((fuel - 1) as nat, c.then_block, st1);
            } else {
                match c.else_branch {
                    Some(eb) => {
                        lemma_else_preserves_scopes(fuel, *eb, st1);
                    },
                    None => {},
                }
            }
        }
    }
}

/// Evaluating an else-branch leaves every scope exactly as it was.
proof fn lemma_else_preserves_scopes(fuel: nat, eb: SpecElseBranch, st: SpecEnv)
    ensures
        spec_eval_else(fuel, eb, st).0.scopes == st.scopes,
    decreases fuel, 0nat, 3int,
{
    if fuel != 0 {
        match eb {
            SpecElseBranch::Else(b) => {
                law_block_leaves_scopes_unchanged((fuel - 1) as nat, b, st);
            },
            SpecElseBranch::ElseIf(c) => {
                lemma_if_preserves_scopes((fuel - 1) as nat, c, st);
            },
        }
    }
}

/// Evaluating a while loop leaves every scope exactly as it was.
proof fn lemma_while_preserves_scopes(
    fuel: nat,
    cond: SpecExpr,
    body: Seq<SpecStmt>,
    st: SpecEnv,
    last: SpecVal,
)
    ensures
        spec_eval_while(fuel, cond, body, st, last).0.scopes == st.scopes,
    decreases fuel, 0nat, 4int,
{
    if fuel != 0 {
        law_expression_leaves_scopes_unchanged((fuel - 1) as nat, cond, st);
        let (st1, r1) = spec_eval_expr((fuel - 1) as nat, cond, st);
        if r1 is Ok && crate::eval::truthy(r1->Ok_0, st1.interner) {
            law_block_leaves_scopes_unchanged((fuel - 1) as nat, body, st1);
            let (st2, r2) = spec_eval_block((fuel - 1) as nat, body, st1);
            match r2 {
                Ok(bv) => {
                    lemma_while_preserves_scopes((fuel - 1) as nat, cond, body, st2, bv);
                },
                Err(_) => {},
            }
        }
    }
}

/// Running a for loop's iterations leaves every scope exactly as it was:
/// each iteration's child scope is discarded with the loop variable in it.
proof fn lemma_for_preserves_scopes(
    fuel: nat,
    var: Seq<char>,
    items: Seq<SpecVal>,
    body: Seq<SpecStmt>,
    st: SpecEnv,
    last: SpecVal,
)
    ensures
        spec_eval_for(fuel, var, items, body, st, last).0.scopes == st.scopes,
    decreases fuel, items.len(), 4int,
{
    if items.len() != 0 && fuel != 0 {
        let st1 = st_store(st_push(st), var, items[0]);
        law_block_leaves_scopes_unchanged((fuel - 1) as nat, body, st1);
        let (st2, r) = spec_eval_block((fuel - 1) as nat, body, st1);
        let st3 = st_pop(st2);
        assert(st3.scopes =~= st.scopes);
        match r {
            Ok(bv) => {
                lemma_for_preserves_scopes(fuel, var, items.drop_first(), body, st3, bv);
            },
            Err(_) => {},
        }
    }
}

/// Evaluating a call leaves every scope exactly as it was: arguments are
/// evaluated in the caller's scopes, the callee's scope is discarded, and
/// the built-ins touch only the interner and the output.
proof fn lemma_call_preserves_scopes(fuel: nat, callee: Seq<char>, args: Seq<SpecExpr>, st: SpecEnv)
    ensures
        spec_eval_call(fuel, callee, args, st).0.scopes == st.scopes,
    decreases fuel, 0nat, 4int,
{
    if fuel != 0 {
        lemma_list_preserves_scopes((fuel - 1) as nat, args, st);
        let (st1, r1) = spec_eval_list((fuel - 1) as nat, args, st);
        match r1 {
            Err(_) => {},
            Ok(vs) => {
                if callee == seq!['p', 'r', 'i', 'n', 't'] {
                    lemma_print_preserves_scopes(st1, vs);
                } else if callee == seq!['l', 'e', 'n'] {
                    assert(spec_builtin_len(vs, st1).0.scopes == st1.scopes);
                } else if callee == seq!['r', 'a', 'n', 'g', 'e'] {
                    assert(spec_builtin_range(vs, st1).0.scopes == st1.scopes);
                } else {
                    match spec_lookup(st1.scopes, callee) {
                        Some(SpecVal::Func { params, body }) => {
                            if params.len() == vs.len() {
                                let st2 = st_bind(st_push(st1), params, vs);
                                lemma_bind_preserves_below(st_push(st1), params, vs);
                                lemma_stmt_preserves_below((fuel - 1) as nat, body, st2);
                                let (st3, r) = spec_eval_stmt((fuel - 1) as nat, body, st2);
                                assert(st_pop(st3).scopes =~= st1.scopes);
                            }
                        },
                        _ => {},
                    }
                }
            },
        }
    }
}

/// Evaluating a list of expressions leaves every scope exactly as it was.
proof fn lemma_list_preserves_scopes(fuel: nat, elems: Seq<SpecExpr>, st: SpecEnv)
    ensures
        spec_eval_list(fuel, elems, st).0.scopes == st.scopes,
    decreases fuel, elems.len(), 3int,
{
    if elems.len() != 0 {
        law_expression_leaves_scopes_unchanged(fuel, elems[0], st);
        let (st1, r1) = spec_eval_expr(fuel, elems[0], st);
        if r1 is Ok {
            lemma_list_preserves_scopes(fuel, elems.drop_first(), st1);
        }
    }
}

/// Evaluating an interpolated string's parts leaves every scope exactly
/// as it was.
proof fn lemma_fparts_preserve_scopes(fuel: nat, parts: Seq<SpecFPart>, st: SpecEnv)
    ensures
        spec_eval_fparts(fuel, parts, st).0.scopes == st.scopes,
    decreases fuel, parts.len(), 3int,
{
    if parts.len() != 0 {
        match parts[0] {
            SpecFPart::Text(_) => {
                lemma_fparts_preserve_scopes(fuel, parts.drop_first(), st);
            },
            SpecFPart::Interp(src) => {
                match spec_expr(src) {
                    None => {},
                    Some((rem, e)) => {
                        if skip_ws(rem).len() == 0 && fuel != 0 {
                            law_expression_leaves_scopes_unchanged((fuel - 1) as nat, e, st);
                            let (st1, r1) = spec_eval_expr((fuel - 1) as nat, e, st);
                            if r1 is Ok {
                                lemma_fparts_preserve_scopes(fuel, parts.drop_first(), st1);
                            }
                        }
                    },
                }
            },
        }
    }
}

/// A binding definition or function definition writes into the innermost
/// scope only: a statement preserves the scope count and every outer
/// scope.
proof fn lemma_stmt_preserves_below(fuel: nat, stmt: SpecStmt, st: SpecEnv)
    requires
        st.scopes.len() >= 1,
    ensures
        spec_eval_stmt(fuel, stmt, st).0.scopes.len() == st.scopes.len(),
        forall|i: int|
            0 <= i < st.scopes.len() - 1 ==> #[trigger] spec_eval_stmt(fuel, stmt, st).0.scopes[i]
                == st.scopes[i],
    decreases fuel, 0nat, 6int,
{
    if fuel != 0 {
        match stmt {
            SpecStmt::BindingDef { name, val } => {
                law_expression_leaves_scopes_unchanged((fuel - 1) as nat, val, st);
            },
            SpecStmt::FunctionDef { .. } => {},
            SpecStmt::Expression(e) => {
                law_expression_leaves_scopes_unchanged((fuel - 1) as nat, e, st);
            },
        }
    }
}

/// A statement sequence runs in the current scope and writes into it
/// only: the scope count and every outer scope are untouched.
proof fn lemma_stmts_preserve_below(fuel: nat, stmts: Seq<SpecStmt>, st: SpecEnv)
    requires
        st.scopes.len() >= 1,
    ensures
        spec_eval_stmts(fuel, stmts, st).0.scopes.len() == st.scopes.len(),
        forall|i: int|
            0 <= i < st.scopes.len() - 1 ==> #[trigger] spec_eval_stmts(
                fuel,
                stmts,
                st,
            ).0.scopes[i] == st.scopes[i],
    decreases fuel, stmts.len(), 7int,
{
    if stmts.len() != 0 {
        lemma_stmt_preserves_below(fuel, stmts[0], st);
        let (st1, r) = spec_eval_stmt(fuel, stmts[0], st);
        if r is Ok && stmts.len() > 1 {
            lemma_stmts_preserve_below(fuel, stmts.drop_first(), st1);
        }
    }
}

/// A binding defined anywhere inside a block does not leak and overwrites
/// nothing outside it: evaluating a block, successfully or not, leaves
/// every scope of the environment exactly as it was, because its
/// statements run in a child scope that is discarded afterwards.
pub proof fn law_block_leaves_scopes_unchanged(fuel: nat, stmts: Seq<SpecStmt>, st: SpecEnv)
    ensures
        spec_eval_block(fuel, stmts, st).0.scopes == st.scopes,
    decreases fuel, 0nat, 6int,
{
    if stmts.len() != 0 && fuel != 0 {
        lemma_stmts_preserve_below((fuel - 1) as nat, stmts, st_push(st));
        let (st1, r) = spec_eval_stmts((fuel - 1) as nat, stmts, st_push(st));
        assert(st_pop(st1).scopes =~= st.scopes);
    }
}

} // verus!
