//! Whole-language behaviour through `parse` and `Parse::eval`: literals,
//! operators, scoping, loops, calls, built-ins, interning, and the error
//! taxonomy.

use nara::error::{Builtin, Error};
use nara::expression::{Expression, Float, Number, Op, UnaryOp};
use nara::val::{Decimal, Val, ValKind};
use nara::{parse, Env};

fn run(env: &mut Env, source: &str) -> Result<Val, Error> {
    parse(source).and_then(|program| program.eval(env))
}

fn run_fresh(source: &str) -> Result<Val, Error> {
    run(&mut Env::default(), source)
}

#[test]
fn integer_literal_evaluates_to_itself() {
    assert_eq!(run_fresh("42"), Ok(Val::Number(42)));
    assert_eq!(run_fresh("0"), Ok(Val::Number(0)));
    assert_eq!(run_fresh("007"), Ok(Val::Number(7)));
    assert_eq!(run_fresh("9223372036854775807"), Ok(Val::Number(i64::MAX)));
}

#[test]
fn binary_rule_is_single_level() {
    // operand parsing does not recurse into further binary operations
    assert_eq!(
        Expression::new("1 + 2 * 3"),
        Ok((
            " * 3",
            Expression::Operation {
                lhs: Box::new(Expression::Number(Number(1))),
                rhs: Box::new(Expression::Number(Number(2))),
                op: Op::Add,
            }
        ))
    );
    assert_eq!(run_fresh("1 + 2 * 3"), Err(Error::UnconsumedInput));
    assert_eq!(
        Error::UnconsumedInput.message(),
        "input was not consumed fully by parser"
    );
}

#[test]
fn floor_division_floors_toward_negative_infinity() {
    assert_eq!(run_fresh("20 // 3"), Ok(Val::Number(6)));
    assert_eq!(run_fresh("-7 // 2"), Ok(Val::Number(-4)));
    assert_eq!(run_fresh("7 // -2"), Ok(Val::Number(-4)));
    assert_eq!(run_fresh("-7 // -2"), Ok(Val::Number(3)));
    assert_eq!(run_fresh("-6 // 2"), Ok(Val::Number(-3)));
    // `/` truncates toward zero, so the two operators differ exactly on
    // inexact opposite-sign divisions
    assert_eq!(run_fresh("-7 / 2"), Ok(Val::Number(-3)));
    assert_eq!(run_fresh("7 / -2"), Ok(Val::Number(-3)));
    assert_eq!(run_fresh("-7 / -2"), Ok(Val::Number(3)));
}

#[test]
fn division_by_zero_is_an_error() {
    assert_eq!(run_fresh("10 / 0"), Err(Error::DivisionByZero));
    assert_eq!(run_fresh("10 // 0"), Err(Error::DivisionByZero));
    assert_eq!(Error::DivisionByZero.message(), "Division by zero");
}

#[test]
fn float_literals_are_exact_decimals() {
    assert_eq!(
        run_fresh("3.14"),
        Ok(Val::Float(Decimal { neg: false, whole: 3, frac: "14".to_string() }))
    );
    // trailing zeros are insignificant
    assert_eq!(
        run_fresh("2.500"),
        Ok(Val::Float(Decimal { neg: false, whole: 2, frac: "5".to_string() }))
    );
    assert_eq!(
        run_fresh("-3.14"),
        Ok(Val::Float(Decimal { neg: true, whole: 3, frac: "14".to_string() }))
    );
    // arithmetic over floats is not among the defined operations
    assert_eq!(
        run_fresh("1.5 + 2.5"),
        Err(Error::TypeMismatch { op: Op::Add, lhs: ValKind::Float, rhs: ValKind::Float })
    );
}

#[test]
fn string_literals_intern_to_shared_storage() {
    let mut env = Env::default();
    let v1 = run(&mut env, "\"hello\"").unwrap();
    let v2 = run(&mut env, "\"hello\"").unwrap();
    // identity-equal: the same shared pool entry, not merely equal content
    assert_eq!(v1, Val::Str(0));
    assert_eq!(v2, Val::Str(0));
    let other = run(&mut env, "\"world\"").unwrap();
    assert_eq!(other, Val::Str(1));
}

#[test]
fn concatenation_interns_to_shared_storage() {
    let mut env = Env::default();
    let whole = run(&mut env, "\"hello\"").unwrap();
    let concat = run(&mut env, "\"he\" + \"llo\"").unwrap();
    assert_eq!(whole, concat);
    assert_eq!(env.render(&concat), "hello".to_string());
}

#[test]
fn string_escapes_are_decoded() {
    let mut env = Env::default();
    let v = run(&mut env, "\"a\\nb\"").unwrap();
    assert_eq!(env.render(&v), "a\nb".to_string());
    assert_eq!(run(&mut env, "len(\"a\\nb\")"), Ok(Val::Number(3)));
    // an unterminated literal is a hard parse failure: no statement parses
    assert_eq!(run_fresh("\"unterminated"), Err(Error::EmptyProgram));
}

#[test]
fn child_binding_does_not_leak_into_parent() {
    let mut env = Env::default();
    assert_eq!(run(&mut env, "{ val y = 5; y }"), Ok(Val::Number(5)));
    assert_eq!(run(&mut env, "y"), Err(Error::UnboundName("y".to_string())));
    assert_eq!(
        Error::UnboundName("y".to_string()).message(),
        "binding with name 'y' does not exist"
    );
}

#[test]
fn parent_binding_visible_unless_shadowed() {
    let mut env = Env::default();
    assert_eq!(run(&mut env, "val x = 1;"), Ok(Val::Unit));
    assert_eq!(run(&mut env, "{ x }"), Ok(Val::Number(1)));
    // shadowing in the child does not mutate the parent's binding
    assert_eq!(run(&mut env, "{ val x = 2; x }"), Ok(Val::Number(2)));
    assert_eq!(run(&mut env, "x"), Ok(Val::Number(1)));
}

#[test]
fn for_loop_evaluates_to_last_body_value() {
    assert_eq!(run_fresh("for x in [1, 2, 3] { x }"), Ok(Val::Number(3)));
    assert_eq!(run_fresh("for x in [] { 1 }"), Ok(Val::Unit));
}

#[test]
fn for_loop_iterable_must_be_a_list() {
    assert_eq!(run_fresh("for x in 5 { x }"), Err(Error::NotIterable { found: ValKind::Number }));
    assert_eq!(
        Error::NotIterable { found: ValKind::Number }.message(),
        "type error: for loop iterable must be a list, found number"
    );
}

#[test]
fn builtin_len() {
    assert_eq!(run_fresh("len(\"hello\")"), Ok(Val::Number(5)));
    assert_eq!(run_fresh("len([1,2,3])"), Ok(Val::Number(3)));
    assert_eq!(
        run_fresh("len(1)"),
        Err(Error::BuiltinTypeMismatch {
            name: Builtin::Len,
            operand: ValKind::Number
        })
    );
    assert_eq!(run_fresh("len()"), Err(Error::ArityMismatch { expected: 1, found: 0 }));
}

#[test]
fn builtin_range() {
    assert_eq!(
        run_fresh("range(3)"),
        Ok(Val::List(vec![Val::Number(0), Val::Number(1), Val::Number(2)]))
    );
    assert_eq!(
        run_fresh("range(2, 5)"),
        Ok(Val::List(vec![Val::Number(2), Val::Number(3), Val::Number(4)]))
    );
    assert_eq!(run_fresh("range(5, 2)"), Ok(Val::List(vec![])));
    assert_eq!(
        run_fresh("range(\"x\")"),
        Err(Error::BuiltinTypeMismatch {
            name: Builtin::Range,
            operand: ValKind::Str
        })
    );
}

#[test]
fn builtin_print_appends_to_output() {
    let mut env = Env::default();
    assert_eq!(run(&mut env, "print(42, \"hi\", [1, 2])"), Ok(Val::Unit));
    assert_eq!(
        env.take_output(),
        vec!["42".to_string(), "hi".to_string(), "[1, 2]".to_string()]
    );
    assert_eq!(env.take_output(), Vec::<String>::new());
}

#[test]
fn user_function_call_binds_parameters_in_order() {
    assert_eq!(run_fresh("fn plus(a, b) a + b\nplus(3, 4)"), Ok(Val::Number(7)));
    assert_eq!(run_fresh("fn second(a, b) b\nsecond(1, 2)"), Ok(Val::Number(2)));
}

#[test]
fn wrong_argument_count_is_an_arity_error() {
    assert_eq!(
        run_fresh("fn plus(a, b) a + b\nplus(1)"),
        Err(Error::ArityMismatch { expected: 2, found: 1 })
    );
    assert_eq!(
        Error::ArityMismatch { expected: 2, found: 1 }.message(),
        "expected 2 arguments, found 1"
    );
}

#[test]
fn adding_number_and_string_is_a_type_error() {
    assert_eq!(
        run_fresh("1 + \"x\""),
        Err(Error::TypeMismatch { op: Op::Add, lhs: ValKind::Number, rhs: ValKind::Str })
    );
    assert_eq!(
        Error::TypeMismatch { op: Op::Add, lhs: ValKind::Number, rhs: ValKind::Str }.message(),
        "type error: operator + is not defined for number and string"
    );
}

#[test]
fn calling_a_non_function_fails() {
    assert_eq!(
        run_fresh("val x = 1; x(2)"),
        Err(Error::NotAFunction("x".to_string()))
    );
    assert_eq!(run_fresh("nothing(1)"), Err(Error::UnboundName("nothing".to_string())));
}

#[test]
fn conditionals_branch_on_truthiness() {
    assert_eq!(run_fresh("if 1 { 2 } else { 3 }"), Ok(Val::Number(2)));
    assert_eq!(run_fresh("if 0 { 2 } else { 3 }"), Ok(Val::Number(3)));
    assert_eq!(run_fresh("if false { 2 }"), Ok(Val::Unit));
    assert_eq!(
        run_fresh("if 0 { 1 } else if true { 2 } else { 3 }"),
        Ok(Val::Number(2))
    );
}

#[test]
fn while_loop_stops_on_false_condition() {
    assert_eq!(run_fresh("while false { 1 }"), Ok(Val::Unit));
    // bindings are immutable, so a true condition never becomes false: the
    // evaluation budget stops the loop
    assert_eq!(run_fresh("while true { 1 }"), Err(Error::BudgetExceeded));
}

#[test]
fn comparison_and_logical_operators() {
    assert_eq!(run_fresh("1 < 2"), Ok(Val::Bool(true)));
    assert_eq!(run_fresh("2 <= 1"), Ok(Val::Bool(false)));
    assert_eq!(run_fresh("2 > 1"), Ok(Val::Bool(true)));
    assert_eq!(run_fresh("1 >= 2"), Ok(Val::Bool(false)));
    assert_eq!(run_fresh("1 == 1"), Ok(Val::Bool(true)));
    assert_eq!(run_fresh("1 != 1"), Ok(Val::Bool(false)));
    assert_eq!(run_fresh("1 == \"x\""), Ok(Val::Bool(false)));
    assert_eq!(run_fresh("true && false"), Ok(Val::Bool(false)));
    assert_eq!(run_fresh("true || false"), Ok(Val::Bool(true)));
    // logical operators take their operands' truthiness
    assert_eq!(run_fresh("1 && \"\""), Ok(Val::Bool(false)));
}

#[test]
fn unary_operators() {
    assert_eq!(run_fresh("!true"), Ok(Val::Bool(false)));
    assert_eq!(run_fresh("-5"), Ok(Val::Number(-5)));
    assert_eq!(
        run_fresh("!1"),
        Err(Error::UnaryTypeMismatch {
            op: UnaryOp::Not,
            operand: ValKind::Number
        })
    );
}

#[test]
fn integer_overflow_is_an_error() {
    assert_eq!(run_fresh("9223372036854775807 + 1"), Err(Error::IntegerOverflow));
    assert_eq!(run_fresh("99999999999999999999"), Err(Error::EmptyProgram));
    assert_eq!(Number::new("99999999999999999999"), Err(Error::NumberTooLarge));
}

#[test]
fn empty_input_is_rejected() {
    assert_eq!(parse(""), Err(Error::EmptyProgram));
    assert_eq!(parse("   "), Err(Error::EmptyProgram));
}

#[test]
fn program_evaluates_statements_in_order() {
    assert_eq!(run_fresh("val a = 2; val b = 3; a * b"), Ok(Val::Number(6)));
}

#[test]
fn rendered_numbers_parse_back_to_the_same_value() {
    let mut env = Env::default();
    for source in ["0", "7", "42", "9223372036854775807", "0 - 5"] {
        let v = run(&mut env, source).unwrap();
        let rendered = env.render(&v);
        assert_eq!(run(&mut env, &rendered), Ok(v));
    }
}

#[test]
fn rendered_values_have_their_documented_forms() {
    let mut env = Env::default();
    let float = run(&mut env, "2.50").unwrap();
    assert_eq!(env.render(&float), "2.5".to_string());
    let whole_float = run(&mut env, "7.0").unwrap();
    assert_eq!(env.render(&whole_float), "7.0".to_string());
    let boolean = run(&mut env, "true").unwrap();
    assert_eq!(env.render(&boolean), "true".to_string());
    let unit = run(&mut env, "val u = 1;").unwrap();
    assert_eq!(env.render(&unit), "Unit".to_string());
    let list = run(&mut env, "[1, \"x\", []]").unwrap();
    assert_eq!(env.render(&list), "[1, x, []]".to_string());
    let func = run(&mut env, "fn two(a, b) a\ntwo").unwrap();
    assert_eq!(env.render(&func), "fn(a, b)".to_string());
}

#[test]
fn lists_compare_structurally() {
    assert_eq!(run_fresh("[1, 2] == [1, 2]"), Ok(Val::Bool(true)));
    assert_eq!(run_fresh("[1, 2] == [1, 3]"), Ok(Val::Bool(false)));
    assert_eq!(run_fresh("\"a\" == \"a\""), Ok(Val::Bool(true)));
    assert_eq!(run_fresh("\"a\" == \"b\""), Ok(Val::Bool(false)));
}

#[test]
fn float_without_fraction_digits_is_rejected() {
    assert_eq!(Float::new("3."), Err(Error::ExpectedDigitsAfterDecimalPoint));
    assert_eq!(
        Error::ExpectedDigitsAfterDecimalPoint.message(),
        "expected digits after decimal point"
    );
}

#[test]
fn fstring_interpolates_expressions() {
    let mut env = Env::default();
    let v = run(&mut env, "f\"a{1 + 2}b\"").unwrap();
    assert_eq!(env.render(&v), "a3b".to_string());
    let w = run(&mut env, "val x = 7; f\"x is {x}\"").unwrap();
    assert_eq!(env.render(&w), "x is 7".to_string());
    let empty = run(&mut env, "f\"\"").unwrap();
    assert_eq!(env.render(&empty), "".to_string());
}

#[test]
fn fstring_results_intern_to_shared_storage() {
    let mut env = Env::default();
    let plain = run(&mut env, "\"hi5\"").unwrap();
    let interpolated = run(&mut env, "f\"hi{5}\"").unwrap();
    assert_eq!(plain, interpolated);
}

#[test]
fn fstring_braces_escape_and_nest() {
    let mut env = Env::default();
    let braces = run(&mut env, "f\"\\{x\\}\"").unwrap();
    assert_eq!(env.render(&braces), "{x}".to_string());
    // an interpolation span may hold nested braces: a block expression
    let nested = run(&mut env, "f\"n={ { 5 } }\"").unwrap();
    assert_eq!(env.render(&nested), "n=5".to_string());
}

#[test]
fn fstring_fragment_must_be_fully_consumed() {
    assert_eq!(
        run_fresh("f\"{1 2}\""),
        Err(Error::InvalidInterpolation("1 2".to_string()))
    );
    assert_eq!(
        Error::InvalidInterpolation("1 2".to_string()).message(),
        "invalid interpolation fragment '1 2'"
    );
    assert_eq!(
        run_fresh("f\"{}\""),
        Err(Error::InvalidInterpolation("".to_string()))
    );
    // an unbalanced span fails the f-string rule; ordered alternation then
    // reads `f` as a binding usage followed by a plain string literal
    assert_eq!(run_fresh("f\"{1\""), Err(Error::UnboundName("f".to_string())));
}

#[test]
fn deep_nesting_exhausts_the_budget_gracefully() {
    // unbounded user recursion must fail with an error, not a crash
    assert_eq!(run_fresh("fn loop2() loop2()\nloop2()"), Err(Error::BudgetExceeded));
    assert_eq!(Error::BudgetExceeded.message(), "evaluation budget exceeded");
}
