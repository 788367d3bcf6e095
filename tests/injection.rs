use darklua_core::inject_libraries::{
    InjectLibraries, insert_libraries, library_file_name, library_statement, require_path_from,
};
use darklua_core::inject_type_checker::{ErrorCallBuilder, InjectTypeChecker, get_possible_type_names};
use darklua_core::inject_typechecker::{InjectTypechecker, Processor};
use darklua_core::nodes::{Block, Expression, FunctionCall, LastStatement, Statement, Type, TypedIdentifier};
use darklua_core::rules::{
    Context, Library, RequireMode, RuleConfigurationError, RulePropertyValue, TypecheckerType,
};

fn prop() -> (String, RulePropertyValue) {
    ("prop".to_string(), RulePropertyValue::String("something".to_string()))
}

fn string(key: &str, value: &str) -> (String, RulePropertyValue) {
    (key.to_string(), RulePropertyValue::String(value.to_string()))
}

fn boolean(key: &str, value: bool) -> (String, RulePropertyValue) {
    (key.to_string(), RulePropertyValue::Boolean(value))
}

fn context() -> Context {
    Context { path: "src/test.lua".to_string(), project_location: ".".to_string(), original_code: vec![] }
}

#[test]
fn inject_libraries_configure_with_extra_field_error() {
    let mut rule = InjectLibraries::default();
    let result = rule.configure(vec![
        ("require_mode".to_string(), RulePropertyValue::RequireMode(RequireMode::Roblox)),
        (
            "libraries".to_string(),
            RulePropertyValue::Libraries(vec![Library {
                name: "task".to_string(),
                path: Some("task.luau".to_string()),
                index: None,
            }]),
        ),
        string("path", "something"),
        prop(),
    ]);
    assert_eq!(result.unwrap_err().message(), "unexpected field 'prop'");
}

#[test]
fn inject_libraries_requires_its_properties() {
    let mut rule = InjectLibraries::default();
    let result = rule.configure(vec![string("path", "something")]);
    assert_eq!(result.unwrap_err(), RuleConfigurationError::MissingProperty("require_mode".to_string()));
}

#[test]
fn inject_libraries_configure_sets_fields() {
    let mut rule = InjectLibraries::default();
    let result = rule.configure(vec![
        ("require_mode".to_string(), RulePropertyValue::RequireMode(RequireMode::Path)),
        ("libraries".to_string(), RulePropertyValue::Libraries(vec![])),
        string("path", "injected"),
        boolean("no_hash", true),
    ]);
    assert!(result.is_ok());
    assert_eq!(rule.path, "injected");
    assert!(rule.no_hash);
    assert_eq!(rule.require_mode, RequireMode::Path);
    assert_eq!(rule.get_name(), "inject_libraries");
}

#[test]
fn inject_type_checker_configure_with_extra_field_error() {
    let mut rule = InjectTypeChecker::default();
    let result = rule.configure(vec![
        string("error_call", "error"),
        string("error_message_format", "foo"),
        boolean("return_errors", false),
        boolean("indexed_functions_only", false),
        boolean("strict", true),
        boolean("ignore_local_functions", false),
        string("runtime_identifier", "{name}"),
        prop(),
    ]);
    assert_eq!(result.unwrap_err().message(), "unexpected field 'prop'");
    assert!(!rule.strict);
}

#[test]
fn inject_type_checker_pattern_must_compile() {
    let mut rule = InjectTypeChecker::default();
    rule.configure(vec![string("ignore_comment_pattern", "(unclosed")]).unwrap();
    let mut block = Block { statements: vec![], last_statement: None };
    assert!(rule.process(&mut block, &context()).is_err());
    let mut rule = InjectTypeChecker::default();
    rule.configure(vec![string("ignore_comment_pattern", "--!nocheck"), boolean("strict", true)]).unwrap();
    assert!(rule.strict);
    assert!(rule.process(&mut block, &context()).is_ok());
}

#[test]
fn inject_typechecker_configure() {
    let mut rule = InjectTypechecker::default();
    assert!(rule.configure(vec![prop()]).is_err());
    assert_eq!(rule.use_typeof, "typeof");
    let types = vec![TypecheckerType { identifier: "Signal".to_string(), method: Some("is".to_string()), call: None }];
    rule.configure(vec![
        boolean("use_typeof", false),
        ("types".to_string(), RulePropertyValue::TypecheckerTypes(types.clone())),
    ])
    .unwrap();
    assert_eq!(rule.use_typeof, "type");
    assert_eq!(rule.types, Some(types));
}

#[test]
fn processor_keeps_its_settings() {
    let p = Processor::new("type".to_string(), true, "m".to_string(), "warn".to_string(), None);
    assert_eq!(p.use_typeof, "type");
    assert!(p.return_errors);
    assert_eq!(p.error_call, "warn");
}

#[test]
fn possible_type_names() {
    let name = |n: &str| Type::Name(n.to_string());
    assert_eq!(get_possible_type_names(&name("number")), Some(vec![("number".to_string(), false)]));
    assert_eq!(get_possible_type_names(&name("Foo")), None);
    assert_eq!(
        get_possible_type_names(&Type::Optional(Box::new(name("string")))),
        Some(vec![("string".to_string(), true)])
    );
    assert_eq!(
        get_possible_type_names(&Type::Union(Box::new(name("string")), Box::new(Type::Table))),
        Some(vec![("string".to_string(), false), ("table".to_string(), false)])
    );
    assert_eq!(
        get_possible_type_names(&Type::Intersection(Box::new(Type::Table), Box::new(Type::Array(Box::new(Type::Nil))))),
        Some(vec![("table".to_string(), false)])
    );
    assert_eq!(get_possible_type_names(&Type::Intersection(Box::new(Type::Table), Box::new(Type::Nil))), None);
    assert_eq!(get_possible_type_names(&Type::Intersection(Box::new(name("A")), Box::new(name("B")))), None);
}

#[test]
fn error_call_passes_the_format() {
    let builder = ErrorCallBuilder { name: "error".to_string(), message_format: "bad {index}".to_string() };
    let call = builder.build(1, "f", "number", "string");
    assert_eq!(
        call,
        FunctionCall {
            prefix: Box::new(Expression::Identifier("error".to_string())),
            method: None,
            arguments: vec![Expression::String("bad {index}".to_string())],
        }
    );
}

#[test]
fn library_file_names() {
    assert_eq!(library_file_name("buffer", Some("luau"), b"libs/buffer.luau", true), "buffer.luau");
    assert_eq!(library_file_name("task", None, b"libs/task", true), "task");
    let hash = hex::encode(&blake3::hash(b"libs/task").as_bytes()[..8]);
    assert_eq!(library_file_name("task", None, b"libs/task", false), format!("task{}", hash));
}

fn local(name: &str, value: Expression) -> Statement {
    Statement::LocalAssign {
        variables: vec![TypedIdentifier { name: name.to_string(), type_annotation: None }],
        values: vec![value],
    }
}

fn require(path: &str) -> Expression {
    Expression::Call(FunctionCall {
        prefix: Box::new(Expression::Identifier("require".to_string())),
        method: None,
        arguments: vec![Expression::String(path.to_string())],
    })
}

#[test]
fn library_locals() {
    assert_eq!(library_statement("buffer", None, None), local("buffer", Expression::Nil));
    assert_eq!(library_statement("task", Some("../injected/task"), None), local("task", require("../injected/task")));
    assert_eq!(
        library_statement("t", Some("x"), Some("Task")),
        local("t", Expression::Field { prefix: Box::new(require("x")), field: "Task".to_string() })
    );
}

#[test]
fn libraries_are_inserted_first_in_reverse_order() {
    let mut block = Block {
        statements: vec![local("x", Expression::Nil)],
        last_statement: Some(LastStatement::Return(vec![])),
    };
    insert_libraries(&mut block, vec![local("a", Expression::Nil), local("b", Expression::Nil)]);
    assert_eq!(
        block,
        Block {
            statements: vec![local("b", Expression::Nil), local("a", Expression::Nil), local("x", Expression::Nil)],
            last_statement: Some(LastStatement::Return(vec![])),
        }
    );
}

fn ident(name: &str) -> Expression {
    Expression::Identifier(name.to_string())
}

fn call_of(name: &str, arguments: Vec<Expression>) -> FunctionCall {
    FunctionCall { prefix: Box::new(ident(name)), method: None, arguments }
}

fn typeof_a() -> Expression {
    Expression::Call(call_of("typeof", vec![ident("a")]))
}

fn function_with_param(annotation: Option<Type>) -> Block {
    Block {
        statements: vec![Statement::Function {
            name: "f".to_string(),
            function: darklua_core::nodes::FunctionExpression {
                parameters: vec![TypedIdentifier { name: "a".to_string(), type_annotation: annotation }],
                is_variadic: false,
                block: Block { statements: vec![], last_statement: None },
            },
        }],
        last_statement: None,
    }
}

#[test]
fn typechecker_injects_a_check_per_annotated_parameter() {
    let rule = InjectTypechecker::default();
    let mut block = function_with_param(Some(Type::Name("number".to_string())));
    rule.flawless_process(&mut block, &context());
    let format = Expression::Call(call_of(
        "string.format",
        vec![
            Expression::String("invalid argument #1 to 'f' (number expected, got %s)".to_string()),
            typeof_a(),
        ],
    ));
    let failure = Block {
        statements: vec![Statement::Call(call_of("error", vec![format]))],
        last_statement: None,
    };
    let condition = Expression::Binary {
        operator: darklua_core::nodes::BinaryOperator::NotEqual,
        left: Box::new(typeof_a()),
        right: Box::new(Expression::String("number".to_string())),
    };
    let check = Statement::If {
        branches: vec![darklua_core::nodes::IfBranch { condition, block: failure }],
        else_block: None,
    };
    let expected = Block {
        statements: vec![Statement::Function {
            name: "f".to_string(),
            function: darklua_core::nodes::FunctionExpression {
                parameters: vec![TypedIdentifier {
                    name: "a".to_string(),
                    type_annotation: Some(Type::Name("number".to_string())),
                }],
                is_variadic: false,
                block: Block { statements: vec![check], last_statement: None },
            },
        }],
        last_statement: None,
    };
    assert_eq!(block, expected);
}

#[test]
fn typechecker_returns_errors_and_uses_method_types() {
    let mut rule = InjectTypechecker::default();
    let types = vec![TypecheckerType { identifier: "Signal".to_string(), method: Some("is".to_string()), call: None }];
    rule.configure(vec![
        boolean("return_errors", true),
        string("error_message", "{argument}:{get_type}:{get_type}"),
        ("types".to_string(), RulePropertyValue::TypecheckerTypes(types)),
    ])
    .unwrap();
    let mut block = function_with_param(Some(Type::Name("Signal".to_string())));
    rule.flawless_process(&mut block, &context());
    let format = Expression::Call(call_of(
        "string.format",
        vec![Expression::String("1:%s:%s".to_string()), typeof_a(), typeof_a()],
    ));
    let failure = Block {
        statements: vec![],
        last_statement: Some(LastStatement::Return(vec![Expression::Call(call_of("error", vec![format]))])),
    };
    let condition = Expression::Call(call_of(" not is", vec![ident("a")]));
    match &block.statements[0] {
        Statement::Function { function, .. } => {
            assert_eq!(
                function.block.statements[0],
                Statement::If {
                    branches: vec![darklua_core::nodes::IfBranch { condition, block: failure }],
                    else_block: None,
                }
            );
        },
        _ => unreachable!(),
    }
}

#[test]
fn typechecker_skips_functions_without_parameters() {
    let rule = InjectTypechecker::default();
    let mut block = Block {
        statements: vec![Statement::Function {
            name: "g".to_string(),
            function: darklua_core::nodes::FunctionExpression {
                parameters: vec![],
                is_variadic: false,
                block: Block { statements: vec![], last_statement: None },
            },
        }],
        last_statement: None,
    };
    rule.flawless_process(&mut block, &context());
    match &block.statements[0] {
        Statement::Function { function, .. } => assert!(function.block.statements.is_empty()),
        _ => unreachable!(),
    }
}

#[test]
fn require_paths_are_relative_to_the_source_directory() {
    assert_eq!(require_path_from("injected/buffer", "src"), Some("../injected/buffer".to_string()));
    assert_eq!(require_path_from("src/lib/task", "src"), Some("lib/task".to_string()));
    assert_eq!(require_path_from("injected/buffer", "/abs"), None);
}

#[test]
fn typechecker_leaves_functions_without_typed_parameters() {
    let rule = InjectTypechecker::default();
    let mut block = function_with_param(None);
    rule.flawless_process(&mut block, &context());
    assert_eq!(block, function_with_param(None));
    let mut block = function_with_param(Some(Type::Table));
    rule.flawless_process(&mut block, &context());
    assert_eq!(block, function_with_param(Some(Type::Table)));
}
