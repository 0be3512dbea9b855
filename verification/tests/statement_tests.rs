//! Statement, binding-definition and function-definition parsing and
//! evaluation.

use nara::block::Block;
use nara::error::Error;
use nara::expression::{BindingUsage, Expression, Number, Op};
use nara::statement::{BindingDef, FunctionDef, Statement};
use nara::val::Val;
use nara::Env;

#[test]
fn binding_def_parse_binding_def() {
    assert_eq!(
        BindingDef::new("val x = 10 / 5;    "),
        Ok((
            "",
            BindingDef {
                name: "x".to_string(),
                val: Expression::Operation {
                    lhs: Box::new(Expression::Number(Number(10))),
                    rhs: Box::new(Expression::Number(Number(5))),
                    op: Op::Div,
                }
            }
        ))
    )
}

#[test]
fn cannot_parse_binding_def_without_space_after_val() {
    assert_eq!(BindingDef::new("valaaa=1+2"), Err(Error::ExpectedWhitespace));
    assert_eq!(Error::ExpectedWhitespace.message(), "expected whitespace");
}

#[test]
fn statement_parse_binding_def() {
    assert_eq!(
        Statement::new("val x = 15;"),
        Ok((
            "",
            Statement::BindingDef(BindingDef {
                name: "x".to_string(),
                val: Expression::Number(Number(15))
            }),
        ))
    )
}

#[test]
fn eval_binding_def() {
    assert_eq!(
        Statement::BindingDef(BindingDef {
            name: "some_variable".to_string(),
            val: Expression::Number(Number(10))
        })
        .eval(&mut Env::default()),
        Ok(Val::Unit)
    )
}

#[test]
fn parse_expression() {
    assert_eq!(
        Statement::new("10 + 10"),
        Ok((
            "",
            Statement::Expression(Expression::Operation {
                lhs: Box::new(Expression::Number(Number(10))),
                rhs: Box::new(Expression::Number(Number(10))),
                op: Op::Add
            })
        ))
    )
}

#[test]
fn eval_expression() {
    assert_eq!(
        Statement::Expression(Expression::Number(Number(5))).eval(&mut Env::default()),
        Ok(Val::Number(5))
    )
}

#[test]
fn parse_nested_functions() {
    assert_eq!(
        Statement::new(
            "fn outer() {
                    fn inner() {3 + 2}
                    inner
                }"
        ),
        Ok((
            "",
            Statement::FunctionDef(FunctionDef {
                name: "outer".to_string(),
                params: vec![],
                body: Box::new(Statement::Expression(Expression::Block(Block {
                    statements: vec![
                        Statement::FunctionDef(FunctionDef {
                            name: "inner".to_string(),
                            params: vec![],
                            body: Box::new(Statement::Expression(Expression::Block(Block {
                                statements: vec![Statement::Expression(Expression::Operation {
                                    lhs: Box::new(Expression::Number(Number(3))),
                                    rhs: Box::new(Expression::Number(Number(2))),
                                    op: Op::Add
                                })]
                            }))),
                        }),
                        Statement::Expression(Expression::BindingUsage(BindingUsage {
                            name: "inner".to_string()
                        }))
                    ],
                })))
            })
        ))
    )
}

#[test]
fn parse_function_def_with_operation() {
    assert_eq!(
        Statement::new("fn operation(par1, par2) 4 + 3"),
        Ok((
            "",
            Statement::FunctionDef(FunctionDef {
                name: "operation".to_string(),
                params: vec!["par1".to_string(), "par2".to_string()],
                body: Box::new(Statement::Expression(Expression::Operation {
                    lhs: Box::new(Expression::Number(Number(4))),
                    rhs: Box::new(Expression::Number(Number(3))),
                    op: Op::Add
                },))
            })
        ))
    )
}

#[test]
fn parse_function_def_with_number() {
    assert_eq!(
        Statement::new("fn number() 42"),
        Ok((
            "",
            Statement::FunctionDef(FunctionDef {
                name: "number".to_string(),
                params: vec![],
                body: Box::new(Statement::Expression(Expression::Number(Number(42)))),
            }),
        ))
    );
}

#[test]
fn parse_function_def_with_no_params_and_empty_body() {
    assert_eq!(
        FunctionDef::new("fn nothing() {}"),
        Ok((
            "",
            FunctionDef {
                name: "nothing".to_string(),
                params: Vec::new(),
                body: Box::new(Statement::Expression(Expression::Block(Block {
                    statements: Vec::new()
                }))),
            }
        ))
    )
}
