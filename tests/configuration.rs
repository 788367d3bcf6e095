use darklua_core::convert_bit32::ConvertBit32;
use darklua_core::remove_continue::RemoveContinue;
use darklua_core::remove_duplicated_keys::RemoveDuplicatedKeys;
use darklua_core::remove_generalized_iteration::RemoveGeneralizedIteration;
use darklua_core::nodes::{BinaryOperator, Block, Expression, Statement};
use darklua_core::rules::{PropertyKind, RuleConfigurationError, RulePropertyValue};

fn prop() -> (String, RulePropertyValue) {
    ("prop".to_string(), RulePropertyValue::String("something".to_string()))
}

#[test]
fn convert_bit32_configure_with_extra_field_error() {
    let mut rule = ConvertBit32::default();
    let result = rule.configure(vec![prop()]);
    assert_eq!(result.unwrap_err().message(), "unexpected field 'prop'");
}

#[test]
fn remove_continue_configure_with_extra_field_error() {
    let mut rule = RemoveContinue::default();
    let result = rule.configure(vec![("no_hash".to_string(), RulePropertyValue::Boolean(false)), prop()]);
    assert_eq!(result.unwrap_err().message(), "unexpected field 'no_hash'");
}

#[test]
fn remove_duplicated_keys_configure_with_extra_field_error() {
    let mut rule = RemoveDuplicatedKeys::default();
    let result = rule.configure(vec![prop()]);
    assert_eq!(result.unwrap_err().message(), "unexpected field 'prop'");
}

#[test]
fn remove_generalized_iteration_configure_with_extra_field_error() {
    let mut rule = RemoveGeneralizedIteration::default();
    let result = rule.configure(vec![prop()]);
    assert_eq!(result.unwrap_err().message(), "unexpected field 'prop'");
}

#[test]
fn configure_sets_runtime_variable_format() {
    let mut rule = RemoveContinue::default();
    let result = rule.configure(vec![(
        "runtime_variable_format".to_string(),
        RulePropertyValue::String("{name}".to_string()),
    )]);
    assert!(result.is_ok());
    assert_eq!(rule.runtime_variable_format(), "{name}");
}

#[test]
fn configure_is_atomic() {
    let mut rule = RemoveGeneralizedIteration::default();
    let result = rule.configure(vec![
        ("runtime_variable_format".to_string(), RulePropertyValue::String("{name}".to_string())),
        prop(),
    ]);
    assert_eq!(result.unwrap_err(), RuleConfigurationError::UnexpectedProperty("prop".to_string()));
    assert_eq!(rule.runtime_variable_format(), "_DARKLUA_REMOVE_GENERALIZED_ITERATION_{name}{hash}");
}

#[test]
fn configure_names_the_first_unrecognized_property() {
    let mut rule = RemoveContinue::default();
    let result = rule.configure(vec![
        ("runtime_variable_format".to_string(), RulePropertyValue::String("{name}".to_string())),
        ("first".to_string(), RulePropertyValue::Boolean(true)),
        ("second".to_string(), RulePropertyValue::Boolean(true)),
    ]);
    assert_eq!(result.unwrap_err().message(), "unexpected field 'first'");
}

#[test]
fn configure_with_wrong_value_type() {
    let mut rule = RemoveContinue::default();
    let result = rule.configure(vec![(
        "runtime_variable_format".to_string(),
        RulePropertyValue::Boolean(true),
    )]);
    let error = result.unwrap_err();
    assert_eq!(
        error,
        RuleConfigurationError::UnexpectedValueType("runtime_variable_format".to_string(), PropertyKind::String)
    );
    assert_eq!(error.message(), "unexpected type for field 'runtime_variable_format'");
}

#[test]
fn configure_without_properties() {
    let mut rule = RemoveDuplicatedKeys::default();
    assert!(rule.configure(vec![]).is_ok());
    assert_eq!(rule.get_name(), "remove_duplicated_keys");
    assert!(rule.serialize_to_properties().is_empty());
}

#[test]
fn convert_bit32_turns_binary_operations_into_shifts() {
    let sum = Expression::Binary {
        operator: BinaryOperator::Plus,
        left: Box::new(Expression::Number(1)),
        right: Box::new(Expression::Identifier("x".to_string())),
    };
    let mut block = Block {
        statements: vec![Statement::Assign { variables: vec![Expression::Identifier("y".to_string())], values: vec![sum] }],
        last_statement: None,
    };
    let context = darklua_core::rules::Context {
        path: "a.lua".to_string(),
        project_location: ".".to_string(),
        original_code: vec![],
    };
    ConvertBit32::default().flawless_process(&mut block, &context);
    let shift = Expression::Binary {
        operator: BinaryOperator::DoubleGreaterThan,
        left: Box::new(Expression::Number(1)),
        right: Box::new(Expression::Identifier("x".to_string())),
    };
    assert_eq!(
        block,
        Block {
            statements: vec![Statement::Assign { variables: vec![Expression::Identifier("y".to_string())], values: vec![shift] }],
            last_statement: None,
        }
    );
}
