use darklua_core::nodes::{
    BinaryOperator, Block, Expression, FunctionCall, IfBranch, Statement, TypedIdentifier,
};
use darklua_core::remove_generalized_iteration::RemoveGeneralizedIteration;
use darklua_core::rules::{Context, RulePropertyValue};

fn context(source: &str) -> Context {
    Context {
        path: "src/test.lua".to_string(),
        project_location: ".".to_string(),
        original_code: source.as_bytes().to_vec(),
    }
}

fn ident(name: &str) -> Expression {
    Expression::Identifier(name.to_string())
}

fn typed(name: &str) -> TypedIdentifier {
    TypedIdentifier { name: name.to_string(), type_annotation: None }
}

fn call(function: Expression, argument: Expression) -> Expression {
    Expression::Call(FunctionCall { prefix: Box::new(function), method: None, arguments: vec![argument] })
}

fn type_is(argument: Expression, name: &str) -> Expression {
    Expression::Binary {
        operator: BinaryOperator::Equal,
        left: Box::new(call(ident("type"), argument)),
        right: Box::new(Expression::String(name.to_string())),
    }
}

fn print_k() -> Block {
    Block {
        statements: vec![Statement::Call(FunctionCall {
            prefix: Box::new(ident("print")),
            method: None,
            arguments: vec![ident("k")],
        })],
        last_statement: None,
    }
}

fn loop_over(expressions: Vec<Expression>) -> Block {
    Block {
        statements: vec![Statement::GenericFor {
            identifiers: vec![typed("k"), typed("v")],
            expressions,
            block: print_k(),
        }],
        last_statement: None,
    }
}

fn mt_iter() -> Expression {
    Expression::Field { prefix: Box::new(ident("_m")), field: "__iter".to_string() }
}

fn triple(value: Expression) -> Statement {
    Statement::Assign { variables: vec![ident("iter"), ident("invar"), ident("control")], values: vec![value] }
}

fn plain(statements: Vec<Statement>) -> Block {
    Block { statements, last_statement: None }
}

fn with_format(format: &str) -> RemoveGeneralizedIteration {
    let mut rule = RemoveGeneralizedIteration::default();
    rule.configure(vec![(
        "runtime_variable_format".to_string(),
        RulePropertyValue::String(format.to_string()),
    )])
    .unwrap();
    rule
}

#[test]
fn single_expression_loop_resolves_iter_once_before_the_loop() {
    let mut block = loop_over(vec![ident("t")]);
    with_format("{name}").process(&mut block, &context("for k, v in t do print(k) end")).unwrap();
    let resolve = Statement::If {
        branches: vec![IfBranch {
            condition: Expression::Binary {
                operator: BinaryOperator::And,
                left: Box::new(type_is(ident("_m"), "table")),
                right: Box::new(type_is(mt_iter(), "function")),
            },
            block: plain(vec![triple(call(mt_iter(), ident("iter")))]),
        }],
        else_block: Some(plain(vec![triple(call(ident("pairs"), ident("iter")))])),
    };
    let metatable = Statement::LocalAssign {
        variables: vec![typed("_m")],
        values: vec![call(ident("getmetatable"), ident("iter"))],
    };
    let expected = plain(vec![Statement::Do(plain(vec![
        Statement::LocalAssign { variables: vec![typed("iter"), typed("invar"), typed("control")], values: vec![ident("t")] },
        Statement::If {
            branches: vec![IfBranch { condition: type_is(ident("iter"), "table"), block: plain(vec![metatable, resolve]) }],
            else_block: None,
        },
        Statement::GenericFor {
            identifiers: vec![typed("k"), typed("v")],
            expressions: vec![ident("iter"), ident("invar"), ident("control")],
            block: print_k(),
        },
    ]))]);
    assert_eq!(block, expected);
}

#[test]
fn classic_loops_are_unchanged() {
    let mut block = loop_over(vec![ident("next"), ident("t")]);
    with_format("{name}").process(&mut block, &context("")).unwrap();
    assert_eq!(block, loop_over(vec![ident("next"), ident("t")]));
}

#[test]
fn default_names_hold_the_source_hash() {
    let source = "for k in t do end";
    let mut block = loop_over(vec![ident("t")]);
    RemoveGeneralizedIteration::default().process(&mut block, &context(source)).unwrap();
    let hash = hex::encode(&blake3::hash(source.as_bytes()).as_bytes()[..8]);
    match &block.statements[0] {
        Statement::Do(inner) => match &inner.statements[0] {
            Statement::LocalAssign { variables, .. } => {
                assert_eq!(variables[0].name, format!("_DARKLUA_REMOVE_GENERALIZED_ITERATION_iter{}", hash));
                assert_eq!(variables[2].name, format!("_DARKLUA_REMOVE_GENERALIZED_ITERATION_control{}", hash));
            },
            _ => unreachable!(),
        },
        _ => unreachable!(),
    }
}

#[test]
fn format_without_name_fails_without_change() {
    let mut block = loop_over(vec![ident("t")]);
    assert!(with_format("x{hash}").process(&mut block, &context("")).is_err());
    assert_eq!(block, loop_over(vec![ident("t")]));
}

#[test]
fn hidden_names_avoid_names_of_the_tree() {
    let mut block = Block {
        statements: vec![Statement::GenericFor {
            identifiers: vec![typed("k"), typed("v")],
            expressions: vec![ident("t")],
            block: Block {
                statements: vec![Statement::Call(FunctionCall {
                    prefix: Box::new(ident("print")),
                    method: None,
                    arguments: vec![ident("iter")],
                })],
                last_statement: None,
            },
        }],
        last_statement: None,
    };
    with_format("{name}").process(&mut block, &context("")).unwrap();
    match &block.statements[0] {
        Statement::Do(inner) => match &inner.statements[0] {
            Statement::LocalAssign { variables, .. } => {
                assert_eq!(variables[0].name, "iter__");
                assert_eq!(variables[1].name, "invar");
                assert_eq!(variables[2].name, "control");
            },
            _ => unreachable!(),
        },
        _ => unreachable!(),
    }
}
