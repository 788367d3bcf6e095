use darklua_core::evaluator::{LuaValue, evaluate};
use darklua_core::nodes::{
    BinaryOperator, Block, Expression, FunctionCall, FunctionExpression, LastStatement, Statement, TableEntry,
    TypedIdentifier,
};
use darklua_core::remove_duplicated_keys::RemoveDuplicatedKeys;
use darklua_core::rules::Context;

fn context(source: &str) -> Context {
    Context {
        path: "src/test.lua".to_string(),
        project_location: ".".to_string(),
        original_code: source.as_bytes().to_vec(),
    }
}

fn s(text: &str) -> Expression {
    Expression::String(text.to_string())
}

fn n(value: u64) -> Expression {
    Expression::Number(value)
}

fn ident(name: &str) -> Expression {
    Expression::Identifier(name.to_string())
}

fn value(e: Expression) -> TableEntry {
    TableEntry::Value(e)
}

fn index(key: Expression, value: Expression) -> TableEntry {
    TableEntry::Index { key, value }
}

fn call(name: &str) -> Expression {
    Expression::Call(FunctionCall { prefix: Box::new(ident(name)), method: None, arguments: vec![] })
}

fn local_a(e: Expression) -> Block {
    Block {
        statements: vec![Statement::LocalAssign {
            variables: vec![TypedIdentifier { name: "a".to_string(), type_annotation: None }],
            values: vec![e],
        }],
        last_statement: None,
    }
}

fn rewrite(entries: Vec<TableEntry>, source: &str) -> Block {
    let mut block = local_a(Expression::Table(entries));
    RemoveDuplicatedKeys::default().flawless_process(&mut block, &context(source));
    block
}

#[test]
fn redeclared_value_and_index() {
    let out = rewrite(vec![value(n(1)), index(n(1), s("A"))], "local a = {1,[1]='A'}");
    assert_eq!(out, local_a(Expression::Table(vec![value(s("A"))])));
}

#[test]
fn redeclared_field_and_index() {
    let out = rewrite(
        vec![TableEntry::Field { name: "x".to_string(), value: n(1) }, index(s("x"), n(2))],
        "local a = {x=1,['x']=2}",
    );
    assert_eq!(out, local_a(Expression::Table(vec![index(s("x"), n(2))])));
}

#[test]
fn redeclared_string_indexes() {
    let out = rewrite(vec![index(s("x"), n(1)), index(s("x"), n(2))], "local a = {['x']=1,['x']=2}");
    assert_eq!(out, local_a(Expression::Table(vec![index(s("x"), n(2))])));
}

#[test]
fn redeclared_numeric_indexes() {
    let out = rewrite(vec![index(n(1), s("A")), index(n(1), s("B"))], "local a = {[1]='A',[1]='B'}");
    assert_eq!(out, local_a(Expression::Table(vec![value(s("B"))])));
}

#[test]
fn redeclared_values_and_indexes_special() {
    let out = rewrite(
        vec![
            value(n(1)),
            value(n(2)),
            value(n(3)),
            index(n(3), s("A")),
            index(n(4), s("B")),
            index(n(6), s("C")),
            index(n(7), s("D")),
        ],
        "local a = {1,2,3,[3]='A',[4]='B',[6]='C',[7]='D'}",
    );
    let expected = vec![
        value(n(1)),
        value(n(2)),
        value(s("A")),
        value(s("B")),
        index(n(6), s("C")),
        index(n(7), s("D")),
    ];
    assert_eq!(out, local_a(Expression::Table(expected)));
}

#[test]
fn redeclared_side_effects() {
    let source = "local a = {1,[f()]='A'}";
    let out = rewrite(vec![value(n(1)), index(call("f"), s("A"))], source);
    let name = format!(
        "__DARKLUA_REMOVE_DUPLICATED_KEYS_tbl{}",
        hex::encode(&blake3::hash(source.as_bytes()).as_bytes()[..8])
    );
    let body = Block {
        statements: vec![
            Statement::LocalAssign {
                variables: vec![TypedIdentifier { name: name.clone(), type_annotation: None }],
                values: vec![Expression::Table(vec![value(n(1))])],
            },
            Statement::Assign {
                variables: vec![Expression::Index { prefix: Box::new(ident(&name)), index: Box::new(call("f")) }],
                values: vec![s("A")],
            },
        ],
        last_statement: Some(LastStatement::Return(vec![ident(&name)])),
    };
    let function = FunctionExpression { parameters: vec![], is_variadic: false, block: body };
    let expected = Expression::Call(FunctionCall {
        prefix: Box::new(Expression::Parenthese(Box::new(Expression::Function(Box::new(function))))),
        method: None,
        arguments: vec![],
    });
    assert_eq!(out, local_a(expected));
}

#[test]
fn distinct_keys_stay() {
    let entries = vec![value(n(1)), index(s("x"), call("g")), value(call("h"))];
    let out = rewrite(entries, "");
    let entries = vec![value(n(1)), index(s("x"), call("g")), value(call("h"))];
    assert_eq!(out, local_a(Expression::Table(entries)));
}

#[test]
fn trailing_call_in_positional_place_stays() {
    let entries = vec![index(n(1), s("A")), value(call("f"))];
    let out = rewrite(entries, "");
    assert_eq!(out, local_a(Expression::Table(vec![index(n(1), s("A")), value(call("f"))])));
}

#[test]
fn variable_arguments_pass_through_the_builder() {
    let source = "local a = {..., [f()]=1, 2}";
    let entries = vec![value(Expression::VariableArguments), index(call("f"), n(1)), value(n(2))];
    let out = rewrite(entries, source);
    let name = format!(
        "__DARKLUA_REMOVE_DUPLICATED_KEYS_tbl{}",
        hex::encode(&blake3::hash(source.as_bytes()).as_bytes()[..8])
    );
    let table = || Box::new(ident(&name));
    let body = Block {
        statements: vec![
            Statement::LocalAssign {
                variables: vec![TypedIdentifier { name: name.clone(), type_annotation: None }],
                values: vec![Expression::Table(vec![value(Expression::VariableArguments)])],
            },
            Statement::Assign {
                variables: vec![Expression::Index { prefix: table(), index: Box::new(call("f")) }],
                values: vec![n(1)],
            },
            Statement::Assign {
                variables: vec![Expression::Index { prefix: table(), index: Box::new(n(2)) }],
                values: vec![n(2)],
            },
        ],
        last_statement: Some(LastStatement::Return(vec![ident(&name)])),
    };
    let function = FunctionExpression { parameters: vec![], is_variadic: true, block: body };
    let expected = Expression::Call(FunctionCall {
        prefix: Box::new(Expression::Parenthese(Box::new(Expression::Function(Box::new(function))))),
        method: None,
        arguments: vec![Expression::VariableArguments],
    });
    assert_eq!(out, local_a(expected));
}

#[test]
fn folded_keys_collide() {
    let key = Expression::Binary { operator: BinaryOperator::Plus, left: Box::new(n(1)), right: Box::new(n(1)) };
    let out = rewrite(vec![value(s("a")), value(s("b")), index(key, s("c"))], "");
    assert_eq!(out, local_a(Expression::Table(vec![value(s("a")), value(s("c"))])));
}

#[test]
fn nested_tables_are_rewritten() {
    let inner = Expression::Table(vec![value(n(1)), index(n(1), n(2))]);
    let out = rewrite(vec![value(inner)], "");
    let inner = Expression::Table(vec![value(n(2))]);
    assert_eq!(out, local_a(Expression::Table(vec![value(inner)])));
}

#[test]
fn evaluator_folds_constants_only() {
    let sum = Expression::Binary { operator: BinaryOperator::Plus, left: Box::new(n(2)), right: Box::new(n(3)) };
    assert_eq!(evaluate(&sum), LuaValue::Number(5));
    let concat = Expression::Binary { operator: BinaryOperator::Concat, left: Box::new(s("a")), right: Box::new(s("b")) };
    assert_eq!(evaluate(&concat), LuaValue::String("ab".to_string()));
    assert_eq!(evaluate(&call("f")), LuaValue::Unknown);
    assert_eq!(evaluate(&ident("x")), LuaValue::Unknown);
    assert_eq!(evaluate(&n(9007199254740993)), LuaValue::Unknown);
    let big = Expression::Binary {
        operator: BinaryOperator::Asterisk,
        left: Box::new(n(9007199254740992)),
        right: Box::new(n(2)),
    };
    assert_eq!(evaluate(&big), LuaValue::Unknown);
}
