//! Generalized-iteration elimination: `for ... in x do` with a single iterated
//! expression becomes the classic three-value form, resolved through the
//! metatable's `__iter` field when `x` is a table that has one.
use vstd::prelude::*;
use crate::hashing::source_hash;
use crate::nodes::{
    BinaryOperator, Block, Expression, FunctionCall, IfBranch, SBlock, SBranch, SCall, SExpression,
    SStatement, STyped, Statement, TypedIdentifier, typeds_view,
};
use crate::remove_continue::{format_schema, format_schema_exec, runtime_variable_format_key};
use crate::rules::{
    Context, RuleConfigurationError, RuleProperties, configuration_error, last_string,
    properties_view, string_property, validate_properties,
};
use crate::names::{collect_block, fresh, fresh_name, fresh_name_is_fresh, names_block, strings_view};
use crate::runtime_variable::{MISSING_NAME_MESSAGE, RuntimeVariableBuilder, has_name_placeholder, render};
use crate::visit::{NodeProcessor, visit_block, walk_block};

verus! {

pub const METATABLE_VARIABLE_NAME: &'static str = "_m";

pub open spec fn identifier(name: Seq<char>) -> SExpression {
    SExpression::Identifier(name)
}

/// `<function>(<argument>)`
pub open spec fn call_of(function: SExpression, argument: SExpression) -> SExpression {
    SExpression::Call(SCall { prefix: Box::new(function), method: None, arguments: seq![argument] })
}

/// `type(<argument>) == "<kind_name>"`
pub open spec fn type_condition(argument: SExpression, kind_name: Seq<char>) -> SExpression {
    SExpression::Binary {
        operator: BinaryOperator::Equal,
        left: Box::new(call_of(identifier("type"@), argument)),
        right: Box::new(SExpression::String(kind_name)),
    }
}

pub open spec fn untyped(name: Seq<char>) -> STyped {
    STyped { name, type_annotation: None }
}

/// `<iterator>, <invariant>, <control> = <value>`
pub open spec fn assign_triple(names: (Seq<char>, Seq<char>, Seq<char>), value: SExpression) -> SStatement {
    SStatement::Assign {
        variables: seq![identifier(names.0), identifier(names.1), identifier(names.2)],
        values: seq![value],
    }
}

pub open spec fn plain_block(statements: Seq<SStatement>) -> SBlock {
    SBlock { statements, last_statement: None }
}

/// The shim that replaces `for <identifiers> in <x> do <body> end`:
///
/// ```text
/// do
///     local iter, invar, control = x
///     if type(iter) == "table" then
///         local _m = getmetatable(iter)
///         if type(_m) == "table" and type(_m.__iter) == "function" then
///             iter, invar, control = _m.__iter(iter)
///         else
///             iter, invar, control = pairs(iter)
///         end
///     end
///     for <identifiers> in iter, invar, control do <body> end
/// end
/// ```
pub open spec fn iteration_shim(
    names: (Seq<char>, Seq<char>, Seq<char>),
    identifiers: Seq<STyped>,
    x: SExpression,
    body: SBlock,
) -> SStatement {
    let iter = identifier(names.0);
    let mt = identifier(METATABLE_VARIABLE_NAME@);
    let mt_iter = SExpression::Field { prefix: Box::new(mt), field: "__iter"@ };
    let resolve = SStatement::If {
        branches: seq![SBranch {
            condition: SExpression::Binary {
                operator: BinaryOperator::And,
                left: Box::new(type_condition(mt, "table"@)),
                right: Box::new(type_condition(mt_iter, "function"@)),
            },
            block: plain_block(seq![assign_triple(names, call_of(mt_iter, iter))]),
        }],
        else_block: Some(plain_block(seq![assign_triple(names, call_of(identifier("pairs"@), iter))])),
    };
    let metatable = SStatement::LocalAssign {
        variables: seq![untyped(METATABLE_VARIABLE_NAME@)],
        values: seq![call_of(identifier("getmetatable"@), iter)],
    };
    SStatement::Do(plain_block(seq![
        SStatement::LocalAssign {
            variables: seq![untyped(names.0), untyped(names.1), untyped(names.2)],
            values: seq![x],
        },
        SStatement::If {
            branches: seq![SBranch {
                condition: type_condition(iter, "table"@),
                block: plain_block(seq![metatable, resolve]),
            }],
            else_block: None,
        },
        SStatement::GenericFor {
            identifiers,
            expressions: seq![iter, identifier(names.1), identifier(names.2)],
            block: body,
        },
    ]))
}

/// `_m.__iter`
pub open spec fn iter_field() -> SExpression {
    SExpression::Field { prefix: Box::new(identifier(METATABLE_VARIABLE_NAME@)), field: "__iter"@ }
}

pub open spec fn shim_statements(
    names: (Seq<char>, Seq<char>, Seq<char>),
    identifiers: Seq<STyped>,
    x: SExpression,
    body: SBlock,
) -> Seq<SStatement> {
    iteration_shim(names, identifiers, x, body)->Do_0.statements
}

/// The statement of the shim that resolves the iterator of a table.
pub open spec fn resolution(
    names: (Seq<char>, Seq<char>, Seq<char>),
    identifiers: Seq<STyped>,
    x: SExpression,
    body: SBlock,
) -> SStatement {
    shim_statements(names, identifiers, x, body)[1]->If_branches[0].block.statements[1]
}

/// In the shim, `x` is evaluated once, into the hidden locals; the iterator
/// is then resolved once, through `__iter` (passed `x`) where `x` is a table
/// whose metatable has a callable `__iter`, else through `pairs`, or left as
/// `x` where it is not a table; only then does the loop run, over the hidden
/// triple and with its body unchanged.
pub proof fn shim_resolves_iteration_once_before_the_loop(
    names: (Seq<char>, Seq<char>, Seq<char>),
    identifiers: Seq<STyped>,
    x: SExpression,
    body: SBlock,
)
    ensures
        iteration_shim(names, identifiers, x, body) is Do,
        shim_statements(names, identifiers, x, body).len() == 3,
        shim_statements(names, identifiers, x, body)[0] == (SStatement::LocalAssign {
            variables: seq![untyped(names.0), untyped(names.1), untyped(names.2)],
            values: seq![x],
        }),
        shim_statements(names, identifiers, x, body)[1]->If_branches.len() == 1,
        shim_statements(names, identifiers, x, body)[1]->If_else_block is None,
        shim_statements(names, identifiers, x, body)[1]->If_branches[0].condition == type_condition(
            identifier(names.0),
            "table"@,
        ),
        resolution(names, identifiers, x, body)->If_branches.len() == 1,
        resolution(names, identifiers, x, body)->If_branches[0].block == plain_block(
            seq![assign_triple(names, call_of(iter_field(), identifier(names.0)))],
        ),
        resolution(names, identifiers, x, body)->If_else_block == Some(
            plain_block(seq![assign_triple(names, call_of(identifier("pairs"@), identifier(names.0)))]),
        ),
        shim_statements(names, identifiers, x, body)[2] == (SStatement::GenericFor {
            identifiers,
            expressions: seq![identifier(names.0), identifier(names.1), identifier(names.2)],
            block: body,
        }),
{
}

/// A generic `for` over a single expression becomes the shim; the rest stays.
pub open spec fn rewrite_iteration(names: (Seq<char>, Seq<char>, Seq<char>), s: SStatement) -> SStatement {
    match s {
        SStatement::GenericFor { identifiers, expressions, block } => if expressions.len() == 1 {
            iteration_shim(names, identifiers, expressions[0], block)
        } else {
            s
        },
        _ => s,
    }
}

fn ident(name: &str) -> (r: Expression)
    ensures
        r.view() == identifier(name@),
{
    Expression::Identifier(name.to_owned())
}

fn call_with(function: Expression, argument: Expression) -> (r: Expression)
    ensures
        r.view() == call_of(function.view(), argument.view()),
{
    let ghost (fv, av) = (function.view(), argument.view());
    let call = FunctionCall { prefix: Box::new(function), method: None, arguments: vec![argument] };
    assert(call.view().arguments =~= seq![av]);
    assert(call.view() == SCall { prefix: Box::new(fv), method: None, arguments: seq![av] });
    Expression::Call(call)
}

fn type_check(argument: Expression, kind_name: &str) -> (r: Expression)
    ensures
        r.view() == type_condition(argument.view(), kind_name@),
{
    let left = call_with(ident("type"), argument);
    let right = Expression::String(kind_name.to_owned());
    let ghost (lv, rv) = (left.view(), right.view());
    let r = Expression::Binary { operator: BinaryOperator::Equal, left: Box::new(left), right: Box::new(right) };
    assert(r.view() == SExpression::Binary { operator: BinaryOperator::Equal, left: Box::new(lv), right: Box::new(rv) });
    r
}

fn triple_assignment(iterator: &str, invar: &str, control: &str, value: Expression) -> (r: Statement)
    ensures
        r.view() == assign_triple((iterator@, invar@, control@), value.view()),
{
    let ghost vv = value.view();
    let variables = vec![ident(iterator), ident(invar), ident(control)];
    let values = vec![value];
    let r = Statement::Assign { variables, values };
    assert(r.view()->Assign_variables =~= seq![identifier(iterator@), identifier(invar@), identifier(control@)]);
    assert(r.view()->Assign_values =~= seq![vv]);
    r
}

fn block_of(statement: Statement) -> (r: Block)
    ensures
        r.view() == plain_block(seq![statement.view()]),
{
    let ghost sv = statement.view();
    let r = Block { statements: vec![statement], last_statement: None };
    assert(r.view().statements =~= seq![sv]);
    r
}

fn untyped_identifier(name: &str) -> (r: TypedIdentifier)
    ensures
        r.view() == untyped(name@),
{
    TypedIdentifier { name: name.to_owned(), type_annotation: None }
}

/// The loop rewrite with the names of its three hidden locals.
pub struct Processor {
    pub iterator_variable_name: String,
    pub invariant_variable_name: String,
    pub control_variable_name: String,
}

impl Processor {
    /// The shim for `for <identifiers> in <x> do <block> end`.
    pub fn process_into_do(
        &self,
        identifiers: Vec<TypedIdentifier>,
        x: Expression,
        block: Block,
    ) -> (r: Statement)
        ensures
            r.view() == iteration_shim(
                self.config(),
                typeds_view(identifiers@),
                x.view(),
                block.view(),
            ),
    {
        let iter = self.iterator_variable_name.as_str();
        let invar = self.invariant_variable_name.as_str();
        let control = self.control_variable_name.as_str();
        let ghost names = self.config();
        let ghost xv = x.view();

        let locals = vec![untyped_identifier(iter), untyped_identifier(invar), untyped_identifier(control)];
        let values = vec![x];
        let local_triple = Statement::LocalAssign { variables: locals, values };
        assert(local_triple.view()->LocalAssign_variables =~= seq![untyped(names.0), untyped(names.1), untyped(names.2)]);
        assert(local_triple.view()->LocalAssign_values =~= seq![xv]);

        let mt_iter = Expression::Field { prefix: Box::new(ident(METATABLE_VARIABLE_NAME)), field: "__iter".to_owned() };
        let ghost mtv = mt_iter.view();
        let mt_iter_call = call_with(mt_iter, ident(iter));
        let from_iter = block_of(triple_assignment(iter, invar, control, mt_iter_call));
        let from_pairs = block_of(triple_assignment(iter, invar, control, call_with(ident("pairs"), ident(iter))));
        let left = type_check(ident(METATABLE_VARIABLE_NAME), "table");
        let right = type_check(
            Expression::Field { prefix: Box::new(ident(METATABLE_VARIABLE_NAME)), field: "__iter".to_owned() },
            "function",
        );
        let ghost (lv, rv) = (left.view(), right.view());
        let both = Expression::Binary { operator: BinaryOperator::And, left: Box::new(left), right: Box::new(right) };
        assert(both.view() == SExpression::Binary { operator: BinaryOperator::And, left: Box::new(lv), right: Box::new(rv) });
        let ghost (bv, fiv, fpv) = (both.view(), from_iter.view(), from_pairs.view());
        let branch = IfBranch { condition: both, block: from_iter };
        let resolve = Statement::If { branches: vec![branch], else_block: Some(from_pairs) };
        assert(resolve.view()->If_branches =~= seq![SBranch { condition: bv, block: fiv }]);

        let metatable = Statement::LocalAssign {
            variables: vec![untyped_identifier(METATABLE_VARIABLE_NAME)],
            values: vec![call_with(ident("getmetatable"), ident(iter))],
        };
        assert(metatable.view()->LocalAssign_variables =~= seq![untyped(METATABLE_VARIABLE_NAME@)]);
        assert(metatable.view()->LocalAssign_values =~= seq![call_of(identifier("getmetatable"@), identifier(names.0))]);
        let ghost (mv, rsv) = (metatable.view(), resolve.view());
        let table_block = Block { statements: vec![metatable, resolve], last_statement: None };
        assert(table_block.view().statements =~= seq![mv, rsv]);
        let table_condition = type_check(ident(iter), "table");
        let ghost (tcv, tbv) = (table_condition.view(), table_block.view());
        let table_branch = IfBranch { condition: table_condition, block: table_block };
        let when_table = Statement::If { branches: vec![table_branch], else_block: None };
        assert(when_table.view()->If_branches =~= seq![SBranch { condition: tcv, block: tbv }]);

        let ghost (idv, blv) = (typeds_view(identifiers@), block.view());
        let triple = vec![ident(iter), ident(invar), ident(control)];
        let new_for = Statement::GenericFor { identifiers, expressions: triple, block };
        assert(new_for.view()->GenericFor_expressions =~= seq![identifier(names.0), identifier(names.1), identifier(names.2)]);
        assert(new_for.view() == SStatement::GenericFor {
            identifiers: idv,
            expressions: seq![identifier(names.0), identifier(names.1), identifier(names.2)],
            block: blv,
        });
        let ghost (ltv, wtv, nfv) = (local_triple.view(), when_table.view(), new_for.view());
        let body = Block { statements: vec![local_triple, when_table, new_for], last_statement: None };
        assert(body.view().statements =~= seq![ltv, wtv, nfv]);
        Statement::Do(body)
    }
}

impl NodeProcessor for Processor {
    /// The names of the iterator, invariant and control locals.
    type Config = (Seq<char>, Seq<char>, Seq<char>);

    open spec fn config(&self) -> (Seq<char>, Seq<char>, Seq<char>) {
        (self.iterator_variable_name@, self.invariant_variable_name@, self.control_variable_name@)
    }

    open spec fn statement_spec(c: (Seq<char>, Seq<char>, Seq<char>), s: SStatement) -> SStatement {
        rewrite_iteration(c, s)
    }

    open spec fn expression_spec(c: (Seq<char>, Seq<char>, Seq<char>), e: SExpression) -> SExpression {
        e
    }

    fn process_statement(&self, s: Statement) -> (r: Statement) {
        match s {
            Statement::GenericFor { identifiers, expressions, block } => {
                let ghost ev = Seq::new(expressions@.len(), |i: int| expressions@[i].view());
                assert(Statement::GenericFor { identifiers, expressions, block }.view()->GenericFor_expressions =~= ev);
                if expressions.len() == 1 {
                    let x = expressions[0].duplicate();
                    self.process_into_do(identifiers, x, block)
                } else {
                    Statement::GenericFor { identifiers, expressions, block }
                }
            },
            _ => s,
        }
    }

    fn process_expression(&self, e: Expression) -> (r: Expression) {
        e
    }
}

// ----- the rule -----

pub const REMOVE_GENERALIZED_ITERATION_RULE_NAME: &'static str = "remove_generalized_iteration";

/// The names of the three hidden locals for a format and a source: each is
/// its rendered name unless a name of the tree (`taken`), the metatable
/// local or an earlier one of the three has it, in which case it is made
/// fresh.
pub open spec fn iteration_names(format: Seq<char>, source: Seq<u8>, taken: Seq<Seq<char>>) -> (Seq<char>, Seq<char>, Seq<char>) {
    let t = taken.push(METATABLE_VARIABLE_NAME@);
    let i = fresh_name(render(format, "iter"@, source_hash(source)), t);
    let v = fresh_name(render(format, "invar"@, source_hash(source)), t.push(i));
    let c = fresh_name(render(format, "control"@, source_hash(source)), t.push(i).push(v));
    (i, v, c)
}

/// The three hidden names differ from each other, from the metatable local
/// and from every name of the tree.
pub proof fn iteration_names_are_fresh(format: Seq<char>, source: Seq<u8>, taken: Seq<Seq<char>>)
    ensures
        !taken.push(METATABLE_VARIABLE_NAME@).contains(iteration_names(format, source, taken).0),
        !taken.push(METATABLE_VARIABLE_NAME@).contains(iteration_names(format, source, taken).1),
        !taken.push(METATABLE_VARIABLE_NAME@).contains(iteration_names(format, source, taken).2),
        iteration_names(format, source, taken).0 != iteration_names(format, source, taken).1,
        iteration_names(format, source, taken).0 != iteration_names(format, source, taken).2,
        iteration_names(format, source, taken).1 != iteration_names(format, source, taken).2,
{
    let t = taken.push(METATABLE_VARIABLE_NAME@);
    let i = iteration_names(format, source, taken).0;
    let v = iteration_names(format, source, taken).1;
    let c = iteration_names(format, source, taken).2;
    fresh_name_is_fresh(render(format, "iter"@, source_hash(source)), t);
    fresh_name_is_fresh(render(format, "invar"@, source_hash(source)), t.push(i));
    fresh_name_is_fresh(render(format, "control"@, source_hash(source)), t.push(i).push(v));
    if t.contains(v) {
        let k = choose|k: int| 0 <= k < t.len() && t[k] == v;
        assert(t.push(i)[k] == v);
    }
    if t.contains(c) {
        let k = choose|k: int| 0 <= k < t.len() && t[k] == c;
        assert(t.push(i).push(v)[k] == c);
    }
    assert(t.push(i)[t.len() as int] == i);
    assert(t.push(i).push(v)[t.len() as int] == i);
    assert(t.push(i).push(v)[t.len() + 1 as int] == v);
}

/// A rule that removes generalized iteration.
#[derive(Debug, PartialEq, Eq)]
pub struct RemoveGeneralizedIteration {
    runtime_variable_format: String,
}

impl RemoveGeneralizedIteration {
    pub closed spec fn format(&self) -> Seq<char> {
        self.runtime_variable_format@
    }

    pub fn new() -> (r: Self)
        ensures
            r.format() == "_DARKLUA_REMOVE_GENERALIZED_ITERATION_{name}{hash}"@,
    {
        RemoveGeneralizedIteration {
            runtime_variable_format: "_DARKLUA_REMOVE_GENERALIZED_ITERATION_{name}{hash}".to_owned(),
        }
    }

    pub fn runtime_variable_format(&self) -> (r: &str)
        ensures
            r@ == self.format(),
    {
        self.runtime_variable_format.as_str()
    }

    pub fn get_name(&self) -> (r: &'static str)
        ensures
            r@ == REMOVE_GENERALIZED_ITERATION_RULE_NAME@,
    {
        REMOVE_GENERALIZED_ITERATION_RULE_NAME
    }

    /// The properties that differ from the defaults: none are reported.
    pub fn serialize_to_properties(&self) -> (r: RuleProperties)
        ensures
            r@.len() == 0,
    {
        Vec::new()
    }

    /// Accepts only `runtime_variable_format`, a string. The whole list is
    /// checked before anything changes.
    pub fn configure(&mut self, properties: RuleProperties) -> (r: Result<(), RuleConfigurationError>)
        ensures
            match configuration_error(properties_view(properties@), format_schema(), seq![]) {
                None => r is Ok && final(self).format() == last_string(
                    properties@,
                    runtime_variable_format_key(),
                    old(self).format(),
                ),
                Some(e) => r matches Err(x) && x.view() == e && *final(self) == *old(self),
            },
    {
        let schema = format_schema_exec();
        let required: Vec<&str> = Vec::new();
        assert(crate::rules::strs_view(required@) =~= seq![]);
        match validate_properties(&properties, &schema, &required) {
            Err(e) => Err(e),
            Ok(()) => {
                let current = self.runtime_variable_format.clone();
                proof { reveal_strlit("runtime_variable_format"); }
                assert("runtime_variable_format"@ =~= runtime_variable_format_key());
                self.runtime_variable_format = string_property(&properties, "runtime_variable_format", current);
                Ok(())
            },
        }
    }

    /// Rewrites every generic `for` over a single expression, with hidden
    /// locals whose names the tree does not use. Fails, changing nothing,
    /// when the format has no `{name}`.
    pub fn process(&self, block: &mut Block, context: &Context) -> (r: Result<(), String>)
        ensures
            r is Ok <==> has_name_placeholder(self.format()),
            r is Ok ==> final(block).view() == walk_block::<Processor>(
                iteration_names(self.format(), context.original_code@, names_block(old(block).view())),
                old(block).view(),
            ),
            r is Err ==> *final(block) == *old(block),
            r matches Err(e) ==> e@ == MISSING_NAME_MESSAGE@,
    {
        let builder = match RuntimeVariableBuilder::new(
            self.runtime_variable_format.as_str(),
            context.original_code.as_slice(),
            Vec::new(),
        ) {
            Ok(b) => b,
            Err(e) => return Err(e),
        };
        assert(builder.reserved().len() == 0);
        let iterator_variable_name = match builder.build("iter") {
            Ok(n) => n,
            Err(e) => return Err(e),
        };
        let invariant_variable_name = match builder.build("invar") {
            Ok(n) => n,
            Err(e) => return Err(e),
        };
        let control_variable_name = match builder.build("control") {
            Ok(n) => n,
            Err(e) => return Err(e),
        };
        let mut taken: Vec<String> = Vec::new();
        collect_block(block, &mut taken);
        let ghost t0 = strings_view(taken@);
        taken.push(METATABLE_VARIABLE_NAME.to_owned());
        assert(strings_view(taken@) =~= t0.push(METATABLE_VARIABLE_NAME@));
        let ghost t1 = strings_view(taken@);
        let iterator_variable_name = fresh(iterator_variable_name, &taken);
        let ghost iv = iterator_variable_name@;
        taken.push(iterator_variable_name.clone());
        assert(strings_view(taken@) =~= t1.push(iv));
        let invariant_variable_name = fresh(invariant_variable_name, &taken);
        let ghost vv = invariant_variable_name@;
        taken.push(invariant_variable_name.clone());
        assert(strings_view(taken@) =~= t1.push(iv).push(vv));
        let control_variable_name = fresh(control_variable_name, &taken);
        let processor = Processor { iterator_variable_name, invariant_variable_name, control_variable_name };
        let rewritten = visit_block(&processor, block);
        *block = rewritten;
        Ok(())
    }
}

impl Default for RemoveGeneralizedIteration {
    fn default() -> (r: Self)
        ensures
            r.format() == "_DARKLUA_REMOVE_GENERALIZED_ITERATION_{name}{hash}"@,
    {
        Self::new()
    }
}

} // verus!
