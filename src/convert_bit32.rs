//! The bit32 conversion: every binary operation becomes a right shift of the
//! same operands.
use vstd::prelude::*;
use crate::nodes::{BinaryOperator, Block, Expression, SExpression, SStatement, Statement};
use crate::rules::{
    Context, PropertyKind, RuleConfigurationError, RuleProperties, configuration_error, properties_view,
    validate_properties,
};
use crate::visit::{NodeProcessor, visit_block, walk_block};

verus! {

pub const CONVERT_BIT32_RULE_NAME: &'static str = "convert_bit32";

pub struct Processor {}

impl NodeProcessor for Processor {
    type Config = ();

    open spec fn config(&self) -> () {
        ()
    }

    open spec fn statement_spec(c: (), s: SStatement) -> SStatement {
        s
    }

    open spec fn expression_spec(c: (), e: SExpression) -> SExpression {
        match e {
            SExpression::Binary { left, right, .. } => SExpression::Binary {
                operator: BinaryOperator::DoubleGreaterThan,
                left,
                right,
            },
            _ => e,
        }
    }

    fn process_statement(&self, s: Statement) -> (r: Statement) {
        s
    }

    fn process_expression(&self, e: Expression) -> (r: Expression) {
        match e {
            Expression::Binary { left, right, .. } => Expression::Binary {
                operator: BinaryOperator::DoubleGreaterThan,
                left,
                right,
            },
            _ => e,
        }
    }
}

/// A rule that turns every binary operation into a right shift.
#[derive(Debug, Default, PartialEq, Eq)]
pub struct ConvertBit32 {}

impl ConvertBit32 {
    pub fn new() -> (r: Self) {
        ConvertBit32 {}
    }

    pub fn get_name(&self) -> (r: &'static str)
        ensures
            r@ == CONVERT_BIT32_RULE_NAME@,
    {
        CONVERT_BIT32_RULE_NAME
    }

    /// The properties that differ from the defaults: there are none.
    pub fn serialize_to_properties(&self) -> (r: RuleProperties)
        ensures
            r@.len() == 0,
    {
        Vec::new()
    }

    /// The rule takes no property: the first one given is refused.
    pub fn configure(&mut self, properties: RuleProperties) -> (r: Result<(), RuleConfigurationError>)
        ensures
            match configuration_error(properties_view(properties@), seq![], seq![]) {
                None => r is Ok,
                Some(e) => r matches Err(x) && x.view() == e,
            },
    {
        let schema: Vec<(&str, PropertyKind)> = Vec::new();
        let required: Vec<&str> = Vec::new();
        assert(crate::rules::schema_view(schema@) =~= seq![]);
        assert(crate::rules::strs_view(required@) =~= seq![]);
        validate_properties(&properties, &schema, &required)
    }

    pub fn flawless_process(&self, block: &mut Block, context: &Context)
        ensures
            final(block).view() == walk_block::<Processor>((), old(block).view()),
    {
        let processor = Processor {};
        let rewritten = visit_block(&processor, block);
        *block = rewritten;
    }
}

} // verus!
