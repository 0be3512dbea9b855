//! The error taxonomy shared by parsing and evaluation.
//!
//! Every failure is a tagged variant; [`Error::message`] renders the
//! human-readable text that callers show.

use vstd::prelude::*;
use vstd::string::StrSliceExecFns;
use vstd::string::StringExecFns;

use crate::val::ValKind;

verus! {

/// The operator symbol, as written in source text.
pub open spec fn spec_op_symbol(op: crate::expression::Op) -> Seq<char> {
    match op {
        crate::expression::Op::Add => "+"@,
        crate::expression::Op::Sub => "-"@,
        crate::expression::Op::Mul => "*"@,
        crate::expression::Op::Div => "/"@,
        crate::expression::Op::Floor => "//"@,
        crate::expression::Op::Equal => "=="@,
        crate::expression::Op::NotEqual => "!="@,
        crate::expression::Op::Less => "<"@,
        crate::expression::Op::LessEq => "<="@,
        crate::expression::Op::Greater => ">"@,
        crate::expression::Op::GreaterEq => ">="@,
        crate::expression::Op::And => "&&"@,
        crate::expression::Op::Or => "||"@,
    }
}

/// The unary operator symbol, as written in source text.
pub open spec fn spec_unary_symbol(op: crate::expression::UnaryOp) -> Seq<char> {
    match op {
        crate::expression::UnaryOp::Not => "!"@,
        crate::expression::UnaryOp::Neg => "-"@,
    }
}

/// The name of a value kind, as named in error messages.
pub open spec fn spec_kind_name(k: ValKind) -> Seq<char> {
    match k {
        ValKind::Number => "number"@,
        ValKind::Float => "float"@,
        ValKind::Str => "string"@,
        ValKind::Bool => "boolean"@,
        ValKind::Func => "function"@,
        ValKind::List => "list"@,
        ValKind::Unit => "unit"@,
    }
}

/// The name of a built-in function.
pub open spec fn spec_builtin_name(b: Builtin) -> Seq<char> {
    match b {
        Builtin::Print => "print"@,
        Builtin::Len => "len"@,
        Builtin::Range => "range"@,
    }
}

/// The human-readable message of an error.
pub open spec fn spec_message(e: SpecError) -> Seq<char> {
    match e {
        SpecError::ExpectedWhitespace => "expected whitespace"@,
        SpecError::ExpectedDigits => "expected digits"@,
        SpecError::ExpectedIdentifier => "expected identifier"@,
        SpecError::ExpectedTag(t) => "expected "@ + t,
        SpecError::ExpectedOpeningParen => "expected opening parenthesis"@,
        SpecError::ExpectedClosingParen => "expected closing parenthesis"@,
        SpecError::ExpectedSemicolon => "expected semicolon"@,
        SpecError::ExpectedDecimalPoint => "expected decimal point"@,
        SpecError::ExpectedDigitsAfterDecimalPoint => "expected digits after decimal point"@,
        SpecError::ExpectedOperator(t) => {
            "expected one of the operators ==, !=, <=, >=, &&, ||, //, +, -, *, /, <, >, but found '"@
                + t + "'"@
        },
        SpecError::UnterminatedString => "unterminated string literal"@,
        SpecError::NumberTooLarge => "number literal is too large"@,
        SpecError::UnconsumedInput => "input was not consumed fully by parser"@,
        SpecError::EmptyProgram => "empty program"@,
        SpecError::UnboundName(n) => "binding with name '"@ + n + "' does not exist"@,
        SpecError::ArityMismatch { expected, found } => "expected "@ + crate::eval::nat_dec(
            expected,
        ) + " arguments, found "@ + crate::eval::nat_dec(found),
        SpecError::TypeMismatch { op, lhs, rhs } => "type error: operator "@ + spec_op_symbol(op)
            + " is not defined for "@ + spec_kind_name(lhs) + " and "@ + spec_kind_name(rhs),
        SpecError::UnaryTypeMismatch { op, operand } => "type error: operator "@
            + spec_unary_symbol(op) + " is not defined for "@ + spec_kind_name(operand),
        SpecError::BuiltinTypeMismatch { name, operand } => "type error: "@ + spec_builtin_name(
            name,
        ) + " does not take "@ + spec_kind_name(operand),
        SpecError::DivisionByZero => "Division by zero"@,
        SpecError::IntegerOverflow => "integer overflow"@,
        SpecError::NotIterable { found } => "type error: for loop iterable must be a list, found "@
            + spec_kind_name(found),
        SpecError::NotAFunction(n) => "'"@ + n + "' is not a function"@,
        SpecError::BudgetExceeded => "evaluation budget exceeded"@,
        SpecError::InvalidInterpolation(f) => "invalid interpolation fragment '"@ + f + "'"@,
    }
}

/// A parse or evaluation failure.
#[derive(Debug, Clone, PartialEq)]
pub enum Error {
    /// A run of whitespace was required and absent.
    ExpectedWhitespace,
    /// A run of digits was required and absent.
    ExpectedDigits,
    /// An identifier was required and absent.
    ExpectedIdentifier,
    /// The input does not begin with the given literal text.
    ExpectedTag(String),
    /// A parameter list must open with `(`.
    ExpectedOpeningParen,
    /// A parameter list must close with `)`.
    ExpectedClosingParen,
    /// A semicolon was required and absent.
    ExpectedSemicolon,
    /// A float literal needs a decimal point after its whole part.
    ExpectedDecimalPoint,
    /// A float literal needs digits after its decimal point.
    ExpectedDigitsAfterDecimalPoint,
    /// No binary operator opens the given text where one was required.
    ExpectedOperator(String),
    /// A string literal was opened and never closed.
    UnterminatedString,
    /// An integer or float literal does not fit the value range.
    NumberTooLarge,
    /// The grammar matched a prefix but input remained.
    UnconsumedInput,
    /// The source text held no statement at all.
    EmptyProgram,
    /// A name was used that no reachable scope binds.
    UnboundName(String),
    /// A call supplied the wrong number of arguments.
    ArityMismatch { expected: usize, found: usize },
    /// A binary operator was applied to operand kinds it is not defined on.
    TypeMismatch { op: crate::expression::Op, lhs: ValKind, rhs: ValKind },
    /// A unary operator was applied to an operand kind it is not defined on.
    UnaryTypeMismatch { op: crate::expression::UnaryOp, operand: ValKind },
    /// A built-in function was applied to an operand kind it does not take.
    BuiltinTypeMismatch { name: Builtin, operand: ValKind },
    /// Integer division or floor division by zero.
    DivisionByZero,
    /// Integer arithmetic left the 64-bit signed range.
    IntegerOverflow,
    /// A `for` loop's iterable did not evaluate to a list.
    NotIterable { found: ValKind },
    /// A call's callee name is not bound to a function value.
    NotAFunction(String),
    /// Evaluation exceeded its work and depth budget.
    BudgetExceeded,
    /// An interpolation fragment is not a single expression consuming the
    /// whole fragment.
    InvalidInterpolation(String),
}

/// The built-in functions, named in their type errors.
#[derive(Clone, Copy, Debug, PartialEq, Eq, Structural)]
pub enum Builtin {
    Print,
    Len,
    Range,
}

/// Spec-level image of an [`Error`].
pub enum SpecError {
    ExpectedWhitespace,
    ExpectedDigits,
    ExpectedIdentifier,
    ExpectedTag(Seq<char>),
    ExpectedOpeningParen,
    ExpectedClosingParen,
    ExpectedSemicolon,
    ExpectedDecimalPoint,
    ExpectedDigitsAfterDecimalPoint,
    ExpectedOperator(Seq<char>),
    UnterminatedString,
    NumberTooLarge,
    UnconsumedInput,
    EmptyProgram,
    UnboundName(Seq<char>),
    ArityMismatch { expected: int, found: int },
    TypeMismatch { op: crate::expression::Op, lhs: ValKind, rhs: ValKind },
    UnaryTypeMismatch { op: crate::expression::UnaryOp, operand: ValKind },
    BuiltinTypeMismatch { name: Builtin, operand: ValKind },
    DivisionByZero,
    IntegerOverflow,
    NotIterable { found: ValKind },
    NotAFunction(Seq<char>),
    BudgetExceeded,
    InvalidInterpolation(Seq<char>),
}

impl View for Error {
    type V = SpecError;

    open spec fn view(&self) -> SpecError {
        match self {
            Error::ExpectedWhitespace => SpecError::ExpectedWhitespace,
            Error::ExpectedDigits => SpecError::ExpectedDigits,
            Error::ExpectedIdentifier => SpecError::ExpectedIdentifier,
            Error::ExpectedTag(t) => SpecError::ExpectedTag(t@),
            Error::ExpectedOpeningParen => SpecError::ExpectedOpeningParen,
            Error::ExpectedClosingParen => SpecError::ExpectedClosingParen,
            Error::ExpectedSemicolon => SpecError::ExpectedSemicolon,
            Error::ExpectedDigitsAfterDecimalPoint => SpecError::ExpectedDigitsAfterDecimalPoint,
            Error::ExpectedDecimalPoint => SpecError::ExpectedDecimalPoint,
            Error::ExpectedOperator(t) => SpecError::ExpectedOperator(t@),
            Error::UnterminatedString => SpecError::UnterminatedString,
            Error::NumberTooLarge => SpecError::NumberTooLarge,
            Error::UnconsumedInput => SpecError::UnconsumedInput,
            Error::EmptyProgram => SpecError::EmptyProgram,
            Error::UnboundName(n) => SpecError::UnboundName(n@),
            Error::ArityMismatch { expected, found } => SpecError::ArityMismatch {
                expected: *expected as int,
                found: *found as int,
            },
            Error::TypeMismatch { op, lhs, rhs } => SpecError::TypeMismatch {
                op: *op,
                lhs: *lhs,
                rhs: *rhs,
            },
            Error::UnaryTypeMismatch { op, operand } => SpecError::UnaryTypeMismatch {
                op: *op,
                operand: *operand,
            },
            Error::BuiltinTypeMismatch { name, operand } => SpecError::BuiltinTypeMismatch {
                name: *name,
                operand: *operand,
            },
            Error::DivisionByZero => SpecError::DivisionByZero,
            Error::IntegerOverflow => SpecError::IntegerOverflow,
            Error::NotIterable { found } => SpecError::NotIterable { found: *found },
            Error::NotAFunction(n) => SpecError::NotAFunction(n@),
            Error::BudgetExceeded => SpecError::BudgetExceeded,
            Error::InvalidInterpolation(f) => SpecError::InvalidInterpolation(f@),
        }
    }
}

impl Error {
    /// The human-readable message of this error.
    pub fn message(&self) -> (r: String)
        ensures
            r@ == spec_message(self@),
    {
        match self {
            Error::ExpectedWhitespace => "expected whitespace".to_owned(),
            Error::ExpectedDigits => "expected digits".to_owned(),
            Error::ExpectedIdentifier => "expected identifier".to_owned(),
            Error::ExpectedTag(t) => {
                let mut m = "expected ".to_owned();
                m.append(t.as_str());
                m
            },
            Error::ExpectedOpeningParen => "expected opening parenthesis".to_owned(),
            Error::ExpectedClosingParen => "expected closing parenthesis".to_owned(),
            Error::ExpectedSemicolon => "expected semicolon".to_owned(),
            Error::ExpectedDigitsAfterDecimalPoint => {
                "expected digits after decimal point".to_owned()
            },
            Error::ExpectedDecimalPoint => "expected decimal point".to_owned(),
            Error::ExpectedOperator(t) => {
                let mut m =
                    "expected one of the operators ==, !=, <=, >=, &&, ||, //, +, -, *, /, <, >, but found '".to_owned();
                m.append(t.as_str());
                m.append("'");
                m
            },
            Error::UnterminatedString => "unterminated string literal".to_owned(),
            Error::NumberTooLarge => "number literal is too large".to_owned(),
            Error::UnconsumedInput => "input was not consumed fully by parser".to_owned(),
            Error::EmptyProgram => "empty program".to_owned(),
            Error::UnboundName(n) => {
                let mut m = "binding with name '".to_owned();
                m.append(n.as_str());
                m.append("' does not exist");
                m
            },
            Error::ArityMismatch { expected, found } => {
                let mut m = "expected ".to_owned();
                let en = crate::eval::nat_to_string(*expected as u64);
                m.append(en.as_str());
                m.append(" arguments, found ");
                let fnd = crate::eval::nat_to_string(*found as u64);
                m.append(fnd.as_str());
                m
            },
            Error::TypeMismatch { op, lhs, rhs } => {
                let mut m = "type error: operator ".to_owned();
                m.append(op_symbol(*op));
                m.append(" is not defined for ");
                m.append(kind_name(*lhs));
                m.append(" and ");
                m.append(kind_name(*rhs));
                m
            },
            Error::UnaryTypeMismatch { op, operand } => {
                let mut m = "type error: operator ".to_owned();
                m.append(unary_symbol(*op));
                m.append(" is not defined for ");
                m.append(kind_name(*operand));
                m
            },
            Error::BuiltinTypeMismatch { name, operand } => {
                let mut m = "type error: ".to_owned();
                m.append(builtin_name(*name));
                m.append(" does not take ");
                m.append(kind_name(*operand));
                m
            },
            Error::DivisionByZero => "Division by zero".to_owned(),
            Error::IntegerOverflow => "integer overflow".to_owned(),
            Error::NotIterable { found } => {
                let mut m = "type error: for loop iterable must be a list, found ".to_owned();
                m.append(kind_name(*found));
                m
            },
            Error::NotAFunction(n) => {
                let mut m = "'".to_owned();
                m.append(n.as_str());
                m.append("' is not a function");
                m
            },
            Error::BudgetExceeded => "evaluation budget exceeded".to_owned(),
            Error::InvalidInterpolation(f) => {
                let mut m = "invalid interpolation fragment '".to_owned();
                m.append(f.as_str());
                m.append("'");
                m
            },
        }
    }
}

/// The operator symbol, as written in source text.
fn op_symbol(op: crate::expression::Op) -> (r: &'static str)
    ensures
        r@ == spec_op_symbol(op),
{
    match op {
        crate::expression::Op::Add => "+",
        crate::expression::Op::Sub => "-",
        crate::expression::Op::Mul => "*",
        crate::expression::Op::Div => "/",
        crate::expression::Op::Floor => "//",
        crate::expression::Op::Equal => "==",
        crate::expression::Op::NotEqual => "!=",
        crate::expression::Op::Less => "<",
        crate::expression::Op::LessEq => "<=",
        crate::expression::Op::Greater => ">",
        crate::expression::Op::GreaterEq => ">=",
        crate::expression::Op::And => "&&",
        crate::expression::Op::Or => "||",
    }
}

/// The unary operator symbol, as written in source text.
fn unary_symbol(op: crate::expression::UnaryOp) -> (r: &'static str)
    ensures
        r@ == spec_unary_symbol(op),
{
    match op {
        crate::expression::UnaryOp::Not => "!",
        crate::expression::UnaryOp::Neg => "-",
    }
}

/// The name of a value kind.
fn kind_name(k: ValKind) -> (r: &'static str)
    ensures
        r@ == spec_kind_name(k),
{
    match k {
        ValKind::Number => "number",
        ValKind::Float => "float",
        ValKind::Str => "string",
        ValKind::Bool => "boolean",
        ValKind::Func => "function",
        ValKind::List => "list",
        ValKind::Unit => "unit",
    }
}

/// The name of a built-in function.
fn builtin_name(b: Builtin) -> (r: &'static str)
    ensures
        r@ == spec_builtin_name(b),
{
    match b {
        Builtin::Print => "print",
        Builtin::Len => "len",
        Builtin::Range => "range",
    }
}

} // verus!
