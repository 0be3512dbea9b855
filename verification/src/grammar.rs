//! The grammar, as spec functions over character sequences.
//!
//! Each parser maps the remaining input to `Some((remainder, node))` on a
//! match and `None` on failure; alternation tries alternatives in the
//! documented priority order and takes the first success. Every parser
//! consumes leading whitespace itself. The executable parsers are proved
//! to return exactly these results.
//!
//! Termination: the measure is the input length paired with a fixed rank
//! per function; every recursive step either strictly shrinks the input or
//! moves to a lower rank on input that is no longer. Where a remainder's
//! length is not a definitional fact, the recursion is guarded by an
//! explicit length comparison; the guard always holds of the values the
//! executable parsers produce, since parsing only ever narrows the input.

use vstd::prelude::*;

use crate::chars::{digit_value, is_ascii_alphanumeric_char, is_whitespace_char, CharClass};
use crate::expression::{Op, SpecConditional, SpecElseBranch, SpecExpr, SpecFPart, UnaryOp};
use crate::statement::SpecStmt;
use crate::utils::{after_semicolon, ident_start, tag_matches, take_len};
use crate::val::SpecDecimal;

verus! {

/// The input after its leading Unicode whitespace.
pub open spec fn skip_ws(s: Seq<char>) -> Seq<char> {
    s.subrange(take_len(CharClass::Whitespace, s) as int, s.len() as int)
}

/// The numeric value of a digit string, most significant digit first.
pub open spec fn digits_val(s: Seq<char>) -> int
    decreases s.len(),
{
    if s.len() == 0 {
        0
    } else {
        digits_val(s.drop_last()) * 10 + digit_value(s.last())
    }
}

/// `s` without its trailing zero digits.
pub open spec fn strip_zeros(s: Seq<char>) -> Seq<char>
    decreases s.len(),
{
    if s.len() > 0 && s.last() == '0' {
        strip_zeros(s.drop_last())
    } else {
        s
    }
}

/// `s` without its trailing whitespace.
pub open spec fn trim_end(s: Seq<char>) -> Seq<char>
    decreases s.len(),
{
    if s.len() > 0 && is_whitespace_char(s.last()) {
        trim_end(s.drop_last())
    } else {
        s
    }
}

/// `s` without leading or trailing whitespace.
pub open spec fn spec_trim(s: Seq<char>) -> Seq<char> {
    trim_end(skip_ws(s))
}

/// A parameter list: the span between the parentheses, split on commas,
/// each piece trimmed, empty pieces dropped.
pub open spec fn spec_split_params(s: Seq<char>) -> Seq<Seq<char>>
    decreases s.len(),
{
    let k = take_len(CharClass::NotComma, s);
    if k >= s.len() {
        let piece = spec_trim(s);
        if piece.len() == 0 {
            Seq::empty()
        } else {
            seq![piece]
        }
    } else {
        let piece = spec_trim(s.subrange(0, k as int));
        let rest = spec_split_params(s.subrange(k as int + 1, s.len() as int));
        if piece.len() == 0 {
            rest
        } else {
            seq![piece] + rest
        }
    }
}

/// Whether `s` opens with the keyword `p` at a word boundary: the exact
/// text, not followed by a letter or digit.
pub open spec fn kw_matches(p: Seq<char>, s: Seq<char>) -> bool {
    tag_matches(p, s) && (s.len() == p.len() || !is_ascii_alphanumeric_char(s[p.len() as int]))
}

/// What a string-literal escape decodes to, or `None` for an unknown
/// escape.
pub open spec fn escape_char(c: char) -> Option<char> {
    if c == 'n' {
        Some('\n')
    } else if c == 't' {
        Some('\t')
    } else if c == 'r' {
        Some('\r')
    } else if c == '\\' {
        Some('\\')
    } else if c == '"' {
        Some('"')
    } else {
        None
    }
}

/// Scans a string-literal body (after the opening quote) up to its closing
/// quote, decoding escapes; `None` when the literal is unterminated or an
/// escape is unknown.
pub open spec fn spec_str_body(s: Seq<char>) -> Option<(Seq<char>, Seq<char>)>
    decreases s.len(),
{
    if s.len() == 0 {
        None
    } else if s[0] == '"' {
        Some((s.subrange(1, s.len() as int), Seq::empty()))
    } else if s[0] == '\\' {
        if s.len() < 2 {
            None
        } else {
            match escape_char(s[1]) {
                None => None,
                Some(d) => match spec_str_body(s.subrange(2, s.len() as int)) {
                    None => None,
                    Some((rem, tail)) => Some((rem, seq![d] + tail)),
                },
            }
        }
    } else {
        match spec_str_body(s.subrange(1, s.len() as int)) {
            None => None,
            Some((rem, tail)) => Some((rem, seq![s[0]] + tail)),
        }
    }
}

/// Prepends already-decoded text to a string-body scan result.
pub open spec fn str_body_compose(prefix: Seq<char>, r: Option<(Seq<char>, Seq<char>)>) -> Option<
    (Seq<char>, Seq<char>),
> {
    match r {
        None => None,
        Some((rem, tail)) => Some((rem, prefix + tail)),
    }
}

/// An interpolated-string escape: as a string-literal escape, and braces
/// escape themselves.
pub open spec fn fstr_escape_char(c: char) -> Option<char> {
    if c == '{' {
        Some('{')
    } else if c == '}' {
        Some('}')
    } else {
        escape_char(c)
    }
}

/// The length of an interpolation span: characters up to the brace that
/// closes it, tracking nested brace depth. `None` when the span is
/// unbalanced.
pub open spec fn spec_interp_len(s: Seq<char>, depth: int) -> Option<int>
    decreases s.len(),
{
    if s.len() == 0 {
        None
    } else if s[0] == '}' && depth == 0 {
        Some(0)
    } else {
        let d2 = if s[0] == '{' {
            depth + 1
        } else if s[0] == '}' {
            depth - 1
        } else {
            depth
        };
        match spec_interp_len(s.subrange(1, s.len() as int), d2) {
            None => None,
            Some(k) => Some(k + 1),
        }
    }
}

/// An interpolation-span length shifted by the characters already
/// scanned.
pub open spec fn interp_len_compose(r: Option<int>, i: int) -> Option<int> {
    match r {
        None => None,
        Some(k) => Some(k + i),
    }
}

/// Scans an interpolated-string body (after the opening `f"`): literal
/// characters, escapes, and brace-delimited interpolation spans, up to and
/// over the closing quote. An unterminated literal or an unbalanced span
/// fails.
pub open spec fn spec_fstr_body(s: Seq<char>) -> Option<(Seq<char>, Seq<SpecFPart>)>
    decreases s.len(),
{
    if s.len() == 0 {
        None
    } else if s[0] == '"' {
        Some((s.subrange(1, s.len() as int), Seq::empty()))
    } else if s[0] == '\\' {
        if s.len() < 2 {
            None
        } else {
            match fstr_escape_char(s[1]) {
                None => None,
                Some(d) => match spec_fstr_body(s.subrange(2, s.len() as int)) {
                    None => None,
                    Some((rem, parts)) => Some((rem, seq![SpecFPart::Text(seq![d])] + parts)),
                },
            }
        }
    } else if s[0] == '{' {
        let inner = s.subrange(1, s.len() as int);
        match spec_interp_len(inner, 0) {
            None => None,
            Some(k) => {
                if 0 <= k < inner.len() {
                    let frag = inner.subrange(0, k);
                    match spec_fstr_body(inner.subrange(k + 1, inner.len() as int)) {
                        None => None,
                        Some((rem, parts)) => Some(
                            (rem, seq![SpecFPart::Interp(frag)] + parts),
                        ),
                    }
                } else {
                    None
                }
            },
        }
    } else {
        match spec_fstr_body(s.subrange(1, s.len() as int)) {
            None => None,
            Some((rem, parts)) => Some((rem, seq![SpecFPart::Text(seq![s[0]])] + parts)),
        }
    }
}

/// An interpolated string literal: `f"` parts `"`.
pub open spec fn spec_fstring(s: Seq<char>) -> Option<(Seq<char>, SpecExpr)> {
    let t = skip_ws(s);
    if t.len() < 2 || t[0] != 'f' || t[1] != '"' {
        None
    } else {
        match spec_fstr_body(t.subrange(2, t.len() as int)) {
            None => None,
            Some((rem, parts)) => Some((rem, SpecExpr::FString(parts))),
        }
    }
}

/// An integer literal: leading whitespace, then digits. `None` when there
/// are no digits or the value exceeds the 64-bit signed range.
pub open spec fn spec_number(s: Seq<char>) -> Option<(Seq<char>, int)> {
    let t = skip_ws(s);
    let n = take_len(CharClass::Digit, t);
    if n == 0 {
        None
    } else {
        let digits = t.subrange(0, n as int);
        if digits_val(digits) <= i64::MAX {
            Some((t.subrange(n as int, t.len() as int), digits_val(digits)))
        } else {
            None
        }
    }
}

/// A float literal: leading whitespace, digits, a `.`, and at least one
/// more digit. The fraction is stored without trailing zeros.
pub open spec fn spec_float(s: Seq<char>) -> Option<(Seq<char>, SpecDecimal)> {
    let t = skip_ws(s);
    let n = take_len(CharClass::Digit, t);
    if n == 0 {
        None
    } else {
        let whole = t.subrange(0, n as int);
        let r1 = t.subrange(n as int, t.len() as int);
        if r1.len() == 0 || r1[0] != '.' {
            None
        } else {
            let r2 = r1.subrange(1, r1.len() as int);
            let m = take_len(CharClass::Digit, r2);
            if m == 0 {
                None
            } else if digits_val(whole) <= u64::MAX {
                Some(
                    (
                        r2.subrange(m as int, r2.len() as int),
                        SpecDecimal {
                            neg: false,
                            whole: digits_val(whole),
                            frac: strip_zeros(r2.subrange(0, m as int)),
                        },
                    ),
                )
            } else {
                None
            }
        }
    }
}

/// A binary operator, longest first, so that two-character operators are
/// never read as their one-character prefixes.
pub open spec fn spec_op(s: Seq<char>) -> Option<(Seq<char>, Op)> {
    if s.len() == 0 {
        None
    } else {
        let c = s[0];
        let two = s.len() >= 2;
        if c == '=' {
            if two && s[1] == '=' {
                Some((s.subrange(2, s.len() as int), Op::Equal))
            } else {
                None
            }
        } else if c == '!' {
            if two && s[1] == '=' {
                Some((s.subrange(2, s.len() as int), Op::NotEqual))
            } else {
                None
            }
        } else if c == '<' {
            if two && s[1] == '=' {
                Some((s.subrange(2, s.len() as int), Op::LessEq))
            } else {
                Some((s.subrange(1, s.len() as int), Op::Less))
            }
        } else if c == '>' {
            if two && s[1] == '=' {
                Some((s.subrange(2, s.len() as int), Op::GreaterEq))
            } else {
                Some((s.subrange(1, s.len() as int), Op::Greater))
            }
        } else if c == '&' {
            if two && s[1] == '&' {
                Some((s.subrange(2, s.len() as int), Op::And))
            } else {
                None
            }
        } else if c == '|' {
            if two && s[1] == '|' {
                Some((s.subrange(2, s.len() as int), Op::Or))
            } else {
                None
            }
        } else if c == '/' {
            if two && s[1] == '/' {
                Some((s.subrange(2, s.len() as int), Op::Floor))
            } else {
                Some((s.subrange(1, s.len() as int), Op::Div))
            }
        } else if c == '+' {
            Some((s.subrange(1, s.len() as int), Op::Add))
        } else if c == '-' {
            Some((s.subrange(1, s.len() as int), Op::Sub))
        } else if c == '*' {
            Some((s.subrange(1, s.len() as int), Op::Mul))
        } else {
            None
        }
    }
}

/// A boolean literal at a word boundary, after leading whitespace.
pub open spec fn spec_bool(s: Seq<char>) -> Option<(Seq<char>, SpecExpr)> {
    let t = skip_ws(s);
    if kw_matches(seq!['t', 'r', 'u', 'e'], t) {
        Some((t.subrange(4, t.len() as int), SpecExpr::Bool(true)))
    } else if kw_matches(seq!['f', 'a', 'l', 's', 'e'], t) {
        Some((t.subrange(5, t.len() as int), SpecExpr::Bool(false)))
    } else {
        None
    }
}

/// A string literal: a quote, a scanned body, its closing quote.
pub open spec fn spec_string(s: Seq<char>) -> Option<(Seq<char>, SpecExpr)> {
    let t = skip_ws(s);
    if t.len() == 0 || t[0] != '"' {
        None
    } else {
        match spec_str_body(t.subrange(1, t.len() as int)) {
            None => None,
            Some((rem, content)) => Some((rem, SpecExpr::Str(content))),
        }
    }
}

/// A referenced binding name: an identifier, after leading whitespace.
pub open spec fn spec_binding_usage(s: Seq<char>) -> Option<(Seq<char>, SpecExpr)> {
    let t = skip_ws(s);
    if !ident_start(t) {
        None
    } else {
        let n = take_len(CharClass::Alphanumeric, t);
        Some(
            (t.subrange(n as int, t.len() as int), SpecExpr::BindingUsage(t.subrange(0, n as int))),
        )
    }
}

/// A full expression: a binary operation, or any operand alternative.
pub open spec fn spec_expr(s: Seq<char>) -> Option<(Seq<char>, SpecExpr)>
    decreases s.len(), 7int,
{
    match spec_operation(s) {
        Some(r) => Some(r),
        None => spec_atom(s),
    }
}

/// A single-level binary operation: operand, operator, operand. Operands
/// are parsed by the non-operation alternatives only.
pub open spec fn spec_operation(s: Seq<char>) -> Option<(Seq<char>, SpecExpr)>
    decreases s.len(), 6int,
{
    match spec_atom(s) {
        None => None,
        Some((r1, lhs)) => {
            let r2 = skip_ws(r1);
            match spec_op(r2) {
                None => None,
                Some((r3, op)) => {
                    if r3.len() <= s.len() {
                        match spec_atom(r3) {
                            None => None,
                            Some((r5, rhs)) => Some(
                                (
                                    r5,
                                    SpecExpr::Operation {
                                        lhs: Box::new(lhs),
                                        rhs: Box::new(rhs),
                                        op,
                                    },
                                ),
                            ),
                        }
                    } else {
                        None
                    }
                },
            }
        },
    }
}

/// An operand: the expression alternatives tried in priority order, with
/// binary operations excluded.
pub open spec fn spec_atom(s: Seq<char>) -> Option<(Seq<char>, SpecExpr)>
    decreases s.len(), 5int,
{
    match spec_unary(s) {
        Some(r) => Some(r),
        None => match spec_if(s) {
            Some((rem, c)) => Some((rem, SpecExpr::If(c))),
            None => match spec_while(s) {
                Some(r) => Some(r),
                None => match spec_for(s) {
                    Some(r) => Some(r),
                    None => match spec_call(s) {
                        Some(r) => Some(r),
                        None => match spec_list(s) {
                            Some(r) => Some(r),
                            None => match spec_bool(s) {
                                Some(r) => Some(r),
                                None => match spec_float(s) {
                                    Some((rem, d)) => Some((rem, SpecExpr::Float(d))),
                                    None => match spec_number(s) {
                                        Some((rem, n)) => Some((rem, SpecExpr::Number(n))),
                                        None => match spec_fstring(s) {
                                            Some(r) => Some(r),
                                            None => match spec_string(s) {
                                            Some(r) => Some(r),
                                            None => match spec_binding_usage(s) {
                                                Some(r) => Some(r),
                                                None => match spec_block(s) {
                                                    Some((rem, b)) => Some(
                                                        (rem, SpecExpr::Block(b)),
                                                    ),
                                                    None => None,
                                                },
                                            },
                                        },
                                        },
                                    },
                                },
                            },
                        },
                    },
                },
            },
        },
    }
}

/// A unary operation: `!` or `-`, then an operand.
pub open spec fn spec_unary(s: Seq<char>) -> Option<(Seq<char>, SpecExpr)>
    decreases s.len(), 4int,
{
    let t = skip_ws(s);
    if t.len() > s.len() || t.len() == 0 || !(t[0] == '!' || t[0] == '-') {
        None
    } else {
        let op = if t[0] == '!' {
            UnaryOp::Not
        } else {
            UnaryOp::Neg
        };
        match spec_atom(t.subrange(1, t.len() as int)) {
            None => None,
            Some((rem, operand)) => Some((rem, SpecExpr::Unary { op, operand: Box::new(operand) })),
        }
    }
}

/// A conditional: `if` condition block, optionally `else` and a block or a
/// nested conditional.
pub open spec fn spec_if(s: Seq<char>) -> Option<(Seq<char>, SpecConditional)>
    decreases s.len(), 4int,
{
    let t = skip_ws(s);
    if t.len() > s.len() || !kw_matches(seq!['i', 'f'], t) {
        None
    } else {
        match spec_expr(t.subrange(2, t.len() as int)) {
            None => None,
            Some((r1, cond)) => {
                if r1.len() <= s.len() {
                    match spec_block(r1) {
                        None => None,
                        Some((r3, then_block)) => {
                            let r4 = skip_ws(r3);
                            if kw_matches(seq!['e', 'l', 's', 'e'], r4) {
                                let r5 = r4.subrange(4, r4.len() as int);
                                if r5.len() < s.len() {
                                    match spec_else(r5) {
                                        None => None,
                                        Some((r6, eb)) => Some(
                                            (
                                                r6,
                                                SpecConditional {
                                                    cond: Box::new(cond),
                                                    then_block,
                                                    else_branch: Some(Box::new(eb)),
                                                },
                                            ),
                                        ),
                                    }
                                } else {
                                    None
                                }
                            } else {
                                Some(
                                    (
                                        r3,
                                        SpecConditional {
                                            cond: Box::new(cond),
                                            then_block,
                                            else_branch: None,
                                        },
                                    ),
                                )
                            }
                        },
                    }
                } else {
                    None
                }
            },
        }
    }
}

/// What follows `else`: a nested conditional, or a block.
pub open spec fn spec_else(s: Seq<char>) -> Option<(Seq<char>, SpecElseBranch)>
    decreases s.len(), 5int,
{
    match spec_if(s) {
        Some((rem, c)) => Some((rem, SpecElseBranch::ElseIf(c))),
        None => match spec_block(s) {
            Some((rem, b)) => Some((rem, SpecElseBranch::Else(b))),
            None => None,
        },
    }
}

/// A while loop: `while` condition block.
pub open spec fn spec_while(s: Seq<char>) -> Option<(Seq<char>, SpecExpr)>
    decreases s.len(), 4int,
{
    let t = skip_ws(s);
    if t.len() > s.len() || !kw_matches(seq!['w', 'h', 'i', 'l', 'e'], t) {
        None
    } else {
        match spec_expr(t.subrange(5, t.len() as int)) {
            None => None,
            Some((r1, cond)) => {
                if r1.len() <= s.len() {
                    match spec_block(r1) {
                        None => None,
                        Some((r3, body)) => Some(
                            (r3, SpecExpr::While { cond: Box::new(cond), body }),
                        ),
                    }
                } else {
                    None
                }
            },
        }
    }
}

/// A for loop: `for` variable `in` iterable block.
pub open spec fn spec_for(s: Seq<char>) -> Option<(Seq<char>, SpecExpr)>
    decreases s.len(), 4int,
{
    let t = skip_ws(s);
    if t.len() > s.len() || !kw_matches(seq!['f', 'o', 'r'], t) {
        None
    } else {
        let r1 = skip_ws(t.subrange(3, t.len() as int));
        if !ident_start(r1) {
            None
        } else {
            let n = take_len(CharClass::Alphanumeric, r1);
            let var = r1.subrange(0, n as int);
            let r2 = skip_ws(r1.subrange(n as int, r1.len() as int));
            if !kw_matches(seq!['i', 'n'], r2) {
                None
            } else {
                let r3 = r2.subrange(2, r2.len() as int);
                if r3.len() < s.len() {
                    match spec_expr(r3) {
                        None => None,
                        Some((r4, iterable)) => {
                            if r4.len() <= s.len() {
                                match spec_block(r4) {
                                    None => None,
                                    Some((r6, body)) => Some(
                                        (
                                            r6,
                                            SpecExpr::For {
                                                var,
                                                iterable: Box::new(iterable),
                                                body,
                                            },
                                        ),
                                    ),
                                }
                            } else {
                                None
                            }
                        },
                    }
                } else {
                    None
                }
            }
        }
    }
}

/// A function call: an identifier directly followed by a parenthesised,
/// comma-separated argument list.
pub open spec fn spec_call(s: Seq<char>) -> Option<(Seq<char>, SpecExpr)>
    decreases s.len(), 4int,
{
    let t = skip_ws(s);
    if t.len() > s.len() || !ident_start(t) {
        None
    } else {
        let n = take_len(CharClass::Alphanumeric, t);
        let callee = t.subrange(0, n as int);
        let r1 = t.subrange(n as int, t.len() as int);
        if r1.len() == 0 || r1[0] != '(' {
            None
        } else {
            let r2 = r1.subrange(1, r1.len() as int);
            if r2.len() < s.len() {
                match spec_exprs_until(r2, ')') {
                    None => None,
                    Some((r3, args)) => Some((r3, SpecExpr::Call { callee, args })),
                }
            } else {
                None
            }
        }
    }
}

/// A list literal: `[` comma-separated expressions `]`.
pub open spec fn spec_list(s: Seq<char>) -> Option<(Seq<char>, SpecExpr)>
    decreases s.len(), 4int,
{
    let t = skip_ws(s);
    if t.len() > s.len() || t.len() == 0 || t[0] != '[' {
        None
    } else {
        match spec_exprs_until(t.subrange(1, t.len() as int), ']') {
            None => None,
            Some((rem, elems)) => Some((rem, SpecExpr::List(elems))),
        }
    }
}

/// Comma-separated expressions up to the closing delimiter, which is
/// consumed. The list may be empty.
pub open spec fn spec_exprs_until(s: Seq<char>, close: char) -> Option<(Seq<char>, Seq<SpecExpr>)>
    decreases s.len(), 8int,
{
    let t = skip_ws(s);
    if t.len() > s.len() {
        None
    } else if t.len() > 0 && t[0] == close {
        Some((t.subrange(1, t.len() as int), Seq::empty()))
    } else {
        match spec_expr(t) {
            None => None,
            Some((r1, e)) => {
                let r2 = skip_ws(r1);
                if r2.len() > 0 && r2[0] == close {
                    Some((r2.subrange(1, r2.len() as int), seq![e]))
                } else if r2.len() > 0 && r2[0] == ',' {
                    let r3 = r2.subrange(1, r2.len() as int);
                    if r3.len() < s.len() {
                        match spec_exprs_until(r3, close) {
                            None => None,
                            Some((r4, rest)) => Some((r4, seq![e] + rest)),
                        }
                    } else {
                        None
                    }
                } else {
                    None
                }
            },
        }
    }
}

/// A block: `{` statements `}`, with an optional trailing semicolon.
pub open spec fn spec_block(s: Seq<char>) -> Option<(Seq<char>, Seq<SpecStmt>)>
    decreases s.len(), 3int,
{
    let t = skip_ws(s);
    if t.len() > s.len() || t.len() == 0 || t[0] != '{' {
        None
    } else {
        let (r1, stmts) = spec_stmt_seq(t.subrange(1, t.len() as int));
        let r2 = skip_ws(r1);
        if r2.len() > 0 && r2[0] == '}' {
            Some((after_semicolon(r2.subrange(1, r2.len() as int)), stmts))
        } else {
            None
        }
    }
}

/// Statements applied repeatedly until the statement parser fails, with
/// whitespace and an optional separating semicolon consumed permissively
/// after each one. Never fails; the list may be empty.
pub open spec fn spec_stmt_seq(s: Seq<char>) -> (Seq<char>, Seq<SpecStmt>)
    decreases s.len(), 11int,
{
    match spec_stmt(s) {
        None => (s, Seq::empty()),
        Some((r1, st)) => {
            let r2 = after_semicolon(skip_ws(r1));
            if r2.len() < s.len() {
                let (r3, rest) = spec_stmt_seq(r2);
                (r3, seq![st] + rest)
            } else {
                (r2, seq![st])
            }
        },
    }
}

/// A statement: a binding definition, a function definition, or a bare
/// expression, tried in that order.
pub open spec fn spec_stmt(s: Seq<char>) -> Option<(Seq<char>, SpecStmt)>
    decreases s.len(), 10int,
{
    match spec_binding_def(s) {
        Some(r) => Some(r),
        None => match spec_function_def(s) {
            Some(r) => Some(r),
            None => match spec_expr(s) {
                Some((rem, e)) => Some((rem, SpecStmt::Expression(e))),
                None => None,
            },
        },
    }
}

/// A binding definition: `val`, at least one space or tab, a name, `=`, an
/// initializer, an optional semicolon, trailing whitespace.
pub open spec fn spec_binding_def(s: Seq<char>) -> Option<(Seq<char>, SpecStmt)>
    decreases s.len(), 9int,
{
    let t = skip_ws(s);
    if t.len() > s.len() || !tag_matches(seq!['v', 'a', 'l'], t) {
        None
    } else {
        let r1 = t.subrange(3, t.len() as int);
        let m = take_len(CharClass::SpaceTab, r1);
        if m == 0 {
            None
        } else {
            let r2 = r1.subrange(m as int, r1.len() as int);
            if !ident_start(r2) || r2.len() > s.len() {
                None
            } else {
                let n = take_len(CharClass::Alphanumeric, r2);
                let name = r2.subrange(0, n as int);
                let r3 = skip_ws(r2.subrange(n as int, r2.len() as int));
                if r3.len() == 0 || r3[0] != '=' {
                    None
                } else {
                    let r4 = r3.subrange(1, r3.len() as int);
                    if r4.len() <= s.len() {
                        match spec_expr(r4) {
                            None => None,
                            Some((r5, v)) => Some(
                                (
                                    skip_ws(after_semicolon(r5)),
                                    SpecStmt::BindingDef { name, val: v },
                                ),
                            ),
                        }
                    } else {
                        None
                    }
                }
            }
        }
    }
}

/// A function definition: `fn`, at least one space or tab, a name, a
/// parenthesised parameter list, then the body statement.
pub open spec fn spec_function_def(s: Seq<char>) -> Option<(Seq<char>, SpecStmt)>
    decreases s.len(), 8int,
{
    let t = skip_ws(s);
    if t.len() > s.len() || !tag_matches(seq!['f', 'n'], t) {
        None
    } else {
        let r1 = t.subrange(2, t.len() as int);
        let m = take_len(CharClass::SpaceTab, r1);
        if m == 0 {
            None
        } else {
            let r2 = r1.subrange(m as int, r1.len() as int);
            if !ident_start(r2) {
                None
            } else {
                let n = take_len(CharClass::Alphanumeric, r2);
                let name = r2.subrange(0, n as int);
                let r3 = r2.subrange(n as int, r2.len() as int);
                match crate::utils::spec_extract_paren(r3) {
                    None => None,
                    Some((r4, span)) => {
                        let params = spec_split_params(span);
                        if r4.len() < s.len() {
                            match spec_stmt(r4) {
                                None => None,
                                Some((r5, body)) => Some(
                                    (
                                        r5,
                                        SpecStmt::FunctionDef { name, params, body: Box::new(body) },
                                    ),
                                ),
                            }
                        } else {
                            None
                        }
                    },
                }
            }
        }
    }
}

/// A whole program: statements covering the entire input, at least one.
pub open spec fn spec_parse(s: Seq<char>) -> Option<Seq<SpecStmt>> {
    let (rem, stmts) = spec_stmt_seq(s);
    if rem.len() == 0 && stmts.len() > 0 {
        Some(stmts)
    } else {
        None
    }
}

} // verus!
