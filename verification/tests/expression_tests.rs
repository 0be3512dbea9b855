//! Expression parsing and evaluation.

use nara::error::Error;
use nara::expression::{BindingUsage, Expression, Float, Number, Op};
use nara::block::Block;
use nara::statement::Statement;
use nara::val::{Decimal, Val};
use nara::Env;

#[test]
fn parse_num() {
    assert_eq!(Number::new("321312"), Ok(("", Number(321312))))
}

#[test]
fn parse_number_as_expression() {
    assert_eq!(Expression::new("475"), Ok(("", Expression::Number(Number(475)))))
}

#[test]
fn parse_add_op() {
    assert_eq!(Op::new("+"), Ok(("", Op::Add)));
}

#[test]
fn parse_sub_op() {
    assert_eq!(Op::new("-"), Ok(("", Op::Sub)));
}

#[test]
fn parse_mul_op() {
    assert_eq!(Op::new("*"), Ok(("", Op::Mul)));
}

#[test]
fn parse_div_op() {
    assert_eq!(Op::new("/"), Ok(("", Op::Div)));
}

#[test]
fn parse_floor_op() {
    assert_eq!(Op::new("//"), Ok(("", Op::Floor)));
}

#[test]
fn unknown_operator_error_names_the_operators_and_the_input() {
    assert_eq!(Op::new("%x"), Err(Error::ExpectedOperator("%x".to_string())));
    assert_eq!(
        Error::ExpectedOperator("%x".to_string()).message(),
        "expected one of the operators ==, !=, <=, >=, &&, ||, //, +, -, *, /, <, >, but found '%x'"
    );
}

#[test]
fn parse_single_int() {
    assert_eq!(Expression::new("50"), Ok(("", Expression::Number(Number(50)))))
}

#[test]
fn parse_single_float() {
    assert_eq!(
        Expression::new(" 3.14"),
        Ok((
            "",
            Expression::Float(Float(Decimal { neg: false, whole: 3, frac: "14".to_string() }))
        ))
    )
}

#[test]
fn eval_add() {
    assert_eq!(
        Expression::Operation {
            lhs: Box::new(Expression::Number(Number(20))),
            rhs: Box::new(Expression::Number(Number(10))),
            op: Op::Add,
        }
        .eval(&mut Env::default()),
        Ok(Val::Number(30))
    )
}

#[test]
fn eval_sub() {
    assert_eq!(
        Expression::Operation {
            lhs: Box::new(Expression::Number(Number(5))),
            rhs: Box::new(Expression::Number(Number(10))),
            op: Op::Sub,
        }
        .eval(&mut Env::default()),
        Ok(Val::Number(-5))
    )
}

#[test]
fn eval_mul() {
    assert_eq!(
        Expression::Operation {
            lhs: Box::new(Expression::Number(Number(20))),
            rhs: Box::new(Expression::Number(Number(10))),
            op: Op::Mul,
        }
        .eval(&mut Env::default()),
        Ok(Val::Number(200))
    )
}

#[test]
fn eval_div() {
    assert_eq!(
        Expression::Operation {
            lhs: Box::new(Expression::Number(Number(12))),
            rhs: Box::new(Expression::Number(Number(3))),
            op: Op::Div,
        }
        .eval(&mut Env::default()),
        Ok(Val::Number(4))
    )
}

#[test]
fn eval_floor() {
    assert_eq!(
        Expression::Operation {
            lhs: Box::new(Expression::Number(Number(20))),
            rhs: Box::new(Expression::Number(Number(3))),
            op: Op::Floor,
        }
        .eval(&mut Env::default()),
        Ok(Val::Number(6))
    )
}

#[test]
fn parse_expression_with_whitespace() {
    assert_eq!(
        Expression::new("3   //     4"),
        Ok((
            "",
            Expression::Operation {
                lhs: Box::new(Expression::Number(Number(3))),
                op: Op::Floor,
                rhs: Box::new(Expression::Number(Number(4))),
            }
        ))
    )
}

#[test]
fn parse_binding_usage() {
    assert_eq!(
        Expression::new("bar"),
        Ok(("", Expression::BindingUsage(BindingUsage { name: "bar".to_string() })))
    )
}

#[test]
fn eval_binding_usage() {
    let mut env = Env::default();
    env.store_binding("ten".to_string(), Val::Number(10));

    assert_eq!(
        Expression::BindingUsage(BindingUsage { name: "ten".to_string() }).eval(&mut env),
        Ok(Val::Number(10)),
    )
}

#[test]
fn parse_block() {
    assert_eq!(
        Expression::new("{ 300 }"),
        Ok((
            "",
            Expression::Block(Block {
                statements: vec![Statement::Expression(Expression::Number(Number(300)))]
            })
        ))
    )
}

#[test]
fn eval_block() {
    assert_eq!(
        Expression::Block(Block {
            statements: vec![Statement::Expression(Expression::Number(Number(10)))],
        })
        .eval(&mut Env::default()),
        Ok(Val::Number(10))
    )
}
