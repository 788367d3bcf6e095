use darklua_core::nodes::{Block, Expression, IfBranch, LastStatement, Statement, TypedIdentifier, UnaryOperator};
use darklua_core::remove_continue::{RemoveContinue, count_continue_break, continues_to_breaks};
use darklua_core::rules::{Context, RulePropertyValue};

fn context(source: &str) -> Context {
    Context {
        path: "src/test.lua".to_string(),
        project_location: ".".to_string(),
        original_code: source.as_bytes().to_vec(),
    }
}

fn hash_of(source: &str) -> String {
    hex::encode(&blake3::hash(source.as_bytes()).as_bytes()[..8])
}

fn ident(name: &str) -> Expression {
    Expression::Identifier(name.to_string())
}

fn jump_block(last: LastStatement) -> Block {
    Block { statements: vec![], last_statement: Some(last) }
}

fn if_then(condition: &str, block: Block) -> Statement {
    Statement::If { branches: vec![IfBranch { condition: ident(condition), block }], else_block: None }
}

fn call_stmt(name: &str) -> Statement {
    Statement::Call(darklua_core::nodes::FunctionCall {
        prefix: Box::new(ident(name)),
        method: None,
        arguments: vec![],
    })
}

fn while_loop(body: Block) -> Block {
    Block { statements: vec![Statement::While { condition: ident("c"), block: body }], last_statement: None }
}

fn single_pass(body: Block) -> Statement {
    Statement::Repeat { block: body, condition: Expression::True }
}

#[test]
fn continue_without_break_becomes_single_pass() {
    let body = Block {
        statements: vec![if_then("x", jump_block(LastStatement::Continue)), call_stmt("f")],
        last_statement: None,
    };
    let mut block = while_loop(body);
    let rule = RemoveContinue::default();
    rule.process(&mut block, &context("while c do if x then continue end f() end")).unwrap();
    let expected_body = Block {
        statements: vec![single_pass(Block {
            statements: vec![if_then("x", jump_block(LastStatement::Break)), call_stmt("f")],
            last_statement: None,
        })],
        last_statement: None,
    };
    assert_eq!(block, while_loop(expected_body));
}

#[test]
fn loop_without_continue_is_unchanged() {
    let body = Block { statements: vec![if_then("x", jump_block(LastStatement::Break))], last_statement: None };
    let mut block = while_loop(body);
    let rule = RemoveContinue::default();
    rule.process(&mut block, &context("")).unwrap();
    let body = Block { statements: vec![if_then("x", jump_block(LastStatement::Break))], last_statement: None };
    assert_eq!(block, while_loop(body));
}

fn flag_assign(name: &str) -> Statement {
    Statement::Assign { variables: vec![ident(name)], values: vec![Expression::True] }
}

fn flag_local(name: &str) -> Statement {
    Statement::LocalAssign {
        variables: vec![TypedIdentifier { name: name.to_string(), type_annotation: None }],
        values: vec![Expression::False],
    }
}

#[test]
fn continue_and_break_use_a_break_flag_when_breaks_are_not_more() {
    let source = "while c do if x then continue end if y then break end f() end";
    let body = Block {
        statements: vec![
            if_then("x", jump_block(LastStatement::Continue)),
            if_then("y", jump_block(LastStatement::Break)),
            call_stmt("f"),
        ],
        last_statement: None,
    };
    let mut block = while_loop(body);
    let rule = RemoveContinue::default();
    rule.process(&mut block, &context(source)).unwrap();
    let flag = format!("_DARKLUA_REMOVE_CONTINUE_break{}", hash_of(source));
    let inner = Block {
        statements: vec![
            if_then("x", jump_block(LastStatement::Break)),
            if_then("y", Block { statements: vec![flag_assign(&flag)], last_statement: Some(LastStatement::Break) }),
            call_stmt("f"),
        ],
        last_statement: None,
    };
    let expected_body = Block {
        statements: vec![flag_local(&flag), single_pass(inner), if_then(&flag, jump_block(LastStatement::Break))],
        last_statement: None,
    };
    assert_eq!(block, while_loop(expected_body));
}

#[test]
fn fewer_continues_use_a_continue_flag() {
    let source = "loop";
    let body = Block {
        statements: vec![
            if_then("x", jump_block(LastStatement::Continue)),
            if_then("y", jump_block(LastStatement::Break)),
            if_then("z", jump_block(LastStatement::Break)),
        ],
        last_statement: None,
    };
    let mut block = while_loop(body);
    let mut rule = RemoveContinue::default();
    rule.configure(vec![(
        "runtime_variable_format".to_string(),
        RulePropertyValue::String("{name}_{hash}".to_string()),
    )])
    .unwrap();
    rule.process(&mut block, &context(source)).unwrap();
    let flag = format!("continue_{}", hash_of(source));
    let inner = Block {
        statements: vec![
            if_then("x", Block { statements: vec![flag_assign(&flag)], last_statement: Some(LastStatement::Break) }),
            if_then("y", jump_block(LastStatement::Break)),
            if_then("z", jump_block(LastStatement::Break)),
            flag_assign(&flag),
        ],
        last_statement: None,
    };
    let not_flag = Expression::Unary { operator: UnaryOperator::Not, operand: Box::new(ident(&flag)) };
    let handler = Statement::If {
        branches: vec![IfBranch { condition: not_flag, block: jump_block(LastStatement::Break) }],
        else_block: None,
    };
    let expected_body = Block { statements: vec![flag_local(&flag), single_pass(inner), handler], last_statement: None };
    assert_eq!(block, while_loop(expected_body));
}

fn mixed_loop() -> Block {
    let nested = Statement::Do(Block {
        statements: vec![if_then("y", jump_block(LastStatement::Break))],
        last_statement: Some(LastStatement::Continue),
    });
    let inner_loop = Statement::Repeat {
        block: Block { statements: vec![if_then("w", jump_block(LastStatement::Continue))], last_statement: None },
        condition: ident("done"),
    };
    while_loop(Block {
        statements: vec![if_then("x", jump_block(LastStatement::Continue)), nested, inner_loop],
        last_statement: None,
    })
}

#[test]
fn rewriting_twice_changes_nothing_more() {
    let rule = RemoveContinue::default();
    let ctx = context("source");
    let mut once = mixed_loop();
    rule.process(&mut once, &ctx).unwrap();
    let mut twice = mixed_loop();
    rule.process(&mut twice, &ctx).unwrap();
    rule.process(&mut twice, &ctx).unwrap();
    assert_eq!(once, twice);
    assert_ne!(once, mixed_loop());
}

#[test]
fn names_are_the_same_for_the_same_source() {
    let rule = RemoveContinue::default();
    let mut a = mixed_loop();
    let mut b = mixed_loop();
    rule.process(&mut a, &context("same")).unwrap();
    rule.process(&mut b, &context("same")).unwrap();
    assert_eq!(a, b);
    let mut c = mixed_loop();
    rule.process(&mut c, &context("other")).unwrap();
    assert_ne!(a, c);
}

#[test]
fn counts_reach_through_if_and_do_only() {
    match &mixed_loop().statements[0] {
        Statement::While { block, .. } => assert_eq!(count_continue_break(block), (2, 1)),
        _ => unreachable!(),
    }
}

#[test]
fn continues_become_breaks() {
    let block = Block { statements: vec![if_then("x", jump_block(LastStatement::Continue))], last_statement: Some(LastStatement::Continue) };
    let converted = continues_to_breaks(&block);
    let expected = Block { statements: vec![if_then("x", jump_block(LastStatement::Break))], last_statement: Some(LastStatement::Break) };
    assert_eq!(converted, expected);
}

#[test]
fn format_without_name_is_refused() {
    let mut rule = RemoveContinue::default();
    rule.configure(vec![(
        "runtime_variable_format".to_string(),
        RulePropertyValue::String("flag".to_string()),
    )])
    .unwrap();
    let mut block = mixed_loop();
    assert!(rule.process(&mut block, &context("")).is_err());
    assert_eq!(block, mixed_loop());
}

fn local_x() -> Statement {
    Statement::LocalAssign {
        variables: vec![TypedIdentifier { name: "x".to_string(), type_annotation: None }],
        values: vec![Expression::Call(darklua_core::nodes::FunctionCall {
            prefix: Box::new(ident("f")),
            method: None,
            arguments: vec![],
        })],
    }
}

fn assign(name: &str, value: Expression) -> Statement {
    Statement::Assign { variables: vec![ident(name)], values: vec![value] }
}

#[test]
fn repeat_condition_is_computed_where_body_locals_are_visible() {
    let body = Block {
        statements: vec![local_x(), if_then("x", jump_block(LastStatement::Continue))],
        last_statement: None,
    };
    let mut block = Block {
        statements: vec![Statement::Repeat { block: body, condition: ident("x") }],
        last_statement: None,
    };
    let mut rule = RemoveContinue::default();
    rule.configure(vec![(
        "runtime_variable_format".to_string(),
        RulePropertyValue::String("_{name}".to_string()),
    )])
    .unwrap();
    rule.process(&mut block, &context("repeat local x = f() if x then continue end until x")).unwrap();
    let inner = Block {
        statements: vec![
            local_x(),
            if_then("x", Block { statements: vec![assign("_until", ident("x"))], last_statement: Some(LastStatement::Break) }),
            assign("_until", ident("x")),
        ],
        last_statement: None,
    };
    let expected = Block {
        statements: vec![Statement::Repeat {
            block: Block { statements: vec![flag_local("_until"), single_pass(inner)], last_statement: None },
            condition: ident("_until"),
        }],
        last_statement: None,
    };
    assert_eq!(block, expected);
}

#[test]
fn flag_names_avoid_names_of_the_tree() {
    let body = Block {
        statements: vec![
            if_then("x", jump_block(LastStatement::Continue)),
            if_then("y", jump_block(LastStatement::Break)),
            call_stmt("_break"),
        ],
        last_statement: None,
    };
    let mut block = while_loop(body);
    let mut rule = RemoveContinue::default();
    rule.configure(vec![(
        "runtime_variable_format".to_string(),
        RulePropertyValue::String("_{name}".to_string()),
    )])
    .unwrap();
    rule.process(&mut block, &context("")).unwrap();
    match &block.statements[0] {
        Statement::While { block: body, .. } => match &body.statements[0] {
            Statement::LocalAssign { variables, .. } => assert_eq!(variables[0].name, "_break____"),
            _ => unreachable!(),
        },
        _ => unreachable!(),
    }
}
