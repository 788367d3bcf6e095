//! A bottom-up rewrite of a whole tree.
//!
//! The walk rebuilds every node after its children, in textual order, and then
//! hands the rebuilt statement or expression to the processor's hook. What a
//! hook returns is not walked again, so a rule never sees its own output.
use vstd::prelude::*;
use crate::nodes::{
    Block, Expression, FunctionCall, FunctionExpression, IfBranch, LastStatement, SBlock, SBranch,
    SCall, SEntry, SExpression, SFunction, SLast, SStatement, Statement, TableEntry, copy_typeds,
};

verus! {

/// The hooks of a rewrite rule, each with its meaning on the model.
pub trait NodeProcessor {
    /// What the hooks depend on, as a value that specifications can name.
    type Config;

    spec fn config(&self) -> Self::Config;

    spec fn statement_spec(c: Self::Config, s: SStatement) -> SStatement;

    spec fn expression_spec(c: Self::Config, e: SExpression) -> SExpression;

    fn process_statement(&self, s: Statement) -> (r: Statement)
        ensures
            r.view() == Self::statement_spec(self.config(), s.view()),
    ;

    fn process_expression(&self, e: Expression) -> (r: Expression)
        ensures
            r.view() == Self::expression_spec(self.config(), e.view()),
    ;
}

pub open spec fn empty_block() -> SBlock {
    SBlock { statements: seq![], last_statement: None }
}

pub open spec fn walk_expressions<P: NodeProcessor>(cfg: P::Config, s: Seq<SExpression>) -> Seq<SExpression>
    decreases s, 0nat,
{
    Seq::new(s.len(), |i: int| if 0 <= i < s.len() { walk_expression::<P>(cfg, s[i]) } else { SExpression::Nil })
}

pub open spec fn walk_call<P: NodeProcessor>(cfg: P::Config, c: SCall) -> SCall
    decreases c, 0nat,
{
    SCall {
        prefix: Box::new(walk_expression::<P>(cfg, *c.prefix)),
        method: c.method,
        arguments: walk_expressions::<P>(cfg, c.arguments),
    }
}

pub open spec fn walk_function<P: NodeProcessor>(cfg: P::Config, f: SFunction) -> SFunction
    decreases f, 0nat,
{
    SFunction { parameters: f.parameters, is_variadic: f.is_variadic, block: walk_block::<P>(cfg, f.block) }
}

pub open spec fn walk_entry<P: NodeProcessor>(cfg: P::Config, e: SEntry) -> SEntry
    decreases e, 0nat,
{
    match e {
        SEntry::Value(v) => SEntry::Value(walk_expression::<P>(cfg, v)),
        SEntry::Index { key, value } => SEntry::Index {
            key: walk_expression::<P>(cfg, key),
            value: walk_expression::<P>(cfg, value),
        },
        SEntry::Field { name, value } => SEntry::Field { name, value: walk_expression::<P>(cfg, value) },
    }
}

/// The children of an expression, each walked; the node itself is left to the hook.
pub open spec fn walk_expression_children<P: NodeProcessor>(cfg: P::Config, e: SExpression) -> SExpression
    decreases e, 0nat,
{
    match e {
        SExpression::Unary { operator, operand } => SExpression::Unary {
            operator,
            operand: Box::new(walk_expression::<P>(cfg, *operand)),
        },
        SExpression::Binary { operator, left, right } => SExpression::Binary {
            operator,
            left: Box::new(walk_expression::<P>(cfg, *left)),
            right: Box::new(walk_expression::<P>(cfg, *right)),
        },
        SExpression::Parenthese(inner) => SExpression::Parenthese(Box::new(walk_expression::<P>(cfg, *inner))),
        SExpression::Table(entries) => SExpression::Table(
            Seq::new(
                entries.len(),
                |i: int|
                    if 0 <= i < entries.len() {
                        walk_entry::<P>(cfg, entries[i])
                    } else {
                        SEntry::Value(SExpression::Nil)
                    },
            ),
        ),
        SExpression::Function(f) => SExpression::Function(Box::new(walk_function::<P>(cfg, *f))),
        SExpression::Call(c) => SExpression::Call(walk_call::<P>(cfg, c)),
        SExpression::Field { prefix, field } => SExpression::Field {
            prefix: Box::new(walk_expression::<P>(cfg, *prefix)),
            field,
        },
        SExpression::Index { prefix, index } => SExpression::Index {
            prefix: Box::new(walk_expression::<P>(cfg, *prefix)),
            index: Box::new(walk_expression::<P>(cfg, *index)),
        },
        _ => e,
    }
}

pub open spec fn walk_expression<P: NodeProcessor>(cfg: P::Config, e: SExpression) -> SExpression
    decreases e, 1nat,
{
    P::expression_spec(cfg, walk_expression_children::<P>(cfg, e))
}

pub open spec fn walk_last<P: NodeProcessor>(cfg: P::Config, l: Option<SLast>) -> Option<SLast>
    decreases l, 0nat,
{
    match l {
        Some(SLast::Return(v)) => Some(SLast::Return(walk_expressions::<P>(cfg, v))),
        _ => l,
    }
}

pub open spec fn walk_statements<P: NodeProcessor>(cfg: P::Config, s: Seq<SStatement>) -> Seq<SStatement>
    decreases s, 0nat,
{
    Seq::new(
        s.len(),
        |i: int| if 0 <= i < s.len() { walk_statement::<P>(cfg, s[i]) } else { SStatement::Do(empty_block()) },
    )
}

pub open spec fn walk_block<P: NodeProcessor>(cfg: P::Config, b: SBlock) -> SBlock
    decreases b, 0nat,
{
    SBlock {
        statements: walk_statements::<P>(cfg, b.statements),
        last_statement: walk_last::<P>(cfg, b.last_statement),
    }
}

pub open spec fn walk_optional_block<P: NodeProcessor>(cfg: P::Config, b: Option<SBlock>) -> Option<SBlock>
    decreases b, 0nat,
{
    match b {
        Some(b) => Some(walk_block::<P>(cfg, b)),
        None => None,
    }
}

pub open spec fn walk_statement_children<P: NodeProcessor>(cfg: P::Config, s: SStatement) -> SStatement
    decreases s, 0nat,
{
    match s {
        SStatement::Assign { variables, values } => SStatement::Assign {
            variables: walk_expressions::<P>(cfg, variables),
            values: walk_expressions::<P>(cfg, values),
        },
        SStatement::CompoundAssign { operator, variable, value } => SStatement::CompoundAssign {
            operator,
            variable: walk_expression::<P>(cfg, variable),
            value: walk_expression::<P>(cfg, value),
        },
        SStatement::LocalAssign { variables, values } => SStatement::LocalAssign {
            variables,
            values: walk_expressions::<P>(cfg, values),
        },
        SStatement::LocalFunction { name, function } => SStatement::LocalFunction {
            name,
            function: walk_function::<P>(cfg, function),
        },
        SStatement::Function { name, function } => SStatement::Function {
            name,
            function: walk_function::<P>(cfg, function),
        },
        SStatement::Call(c) => SStatement::Call(walk_call::<P>(cfg, c)),
        SStatement::If { branches, else_block } => SStatement::If {
            branches: Seq::new(
                branches.len(),
                |i: int|
                    if 0 <= i < branches.len() {
                        SBranch {
                            condition: walk_expression::<P>(cfg, branches[i].condition),
                            block: walk_block::<P>(cfg, branches[i].block),
                        }
                    } else {
                        SBranch { condition: SExpression::Nil, block: empty_block() }
                    },
            ),
            else_block: walk_optional_block::<P>(cfg, else_block),
        },
        SStatement::While { condition, block } => SStatement::While {
            condition: walk_expression::<P>(cfg, condition),
            block: walk_block::<P>(cfg, block),
        },
        SStatement::Repeat { block, condition } => SStatement::Repeat {
            block: walk_block::<P>(cfg, block),
            condition: walk_expression::<P>(cfg, condition),
        },
        SStatement::NumericFor { identifier, start, end, step, block } => SStatement::NumericFor {
            identifier,
            start: walk_expression::<P>(cfg, start),
            end: walk_expression::<P>(cfg, end),
            step: match step {
                Some(e) => Some(walk_expression::<P>(cfg, e)),
                None => None,
            },
            block: walk_block::<P>(cfg, block),
        },
        SStatement::GenericFor { identifiers, expressions, block } => SStatement::GenericFor {
            identifiers,
            expressions: walk_expressions::<P>(cfg, expressions),
            block: walk_block::<P>(cfg, block),
        },
        SStatement::Do(b) => SStatement::Do(walk_block::<P>(cfg, b)),
    }
}

pub open spec fn walk_statement<P: NodeProcessor>(cfg: P::Config, s: SStatement) -> SStatement
    decreases s, 1nat,
{
    P::statement_spec(cfg, walk_statement_children::<P>(cfg, s))
}

// ----- the executable walk -----

pub fn visit_expressions<P: NodeProcessor>(p: &P, v: &Vec<Expression>) -> (r: Vec<Expression>)
    ensures
        r@.len() == v@.len(),
        forall|i: int|
            0 <= i < v@.len() ==> #[trigger] r@[i].view() == walk_expression::<P>(p.config(), v@[i].view()),
    decreases v, 0nat,
{
    let mut out: Vec<Expression> = Vec::new();
    let mut i: usize = 0;
    while i < v.len()
        invariant
            i <= v@.len(),
            out@.len() == i,
            forall|j: int|
                0 <= j < i ==> #[trigger] out@[j].view() == walk_expression::<P>(p.config(), v@[j].view()),
        decreases v@.len() - i,
    {
        assert(decreases_to!(v => v[i as int]));
        out.push(visit_expression(p, &v[i]));
        i += 1;
    }
    out
}

pub fn visit_call<P: NodeProcessor>(p: &P, c: &FunctionCall) -> (r: FunctionCall)
    ensures
        r.view() == walk_call::<P>(p.config(), c.view()),
    decreases c, 0nat,
{
    let arguments = visit_expressions(p, &c.arguments);
    let method = match &c.method {
        Some(m) => Some(m.clone()),
        None => None,
    };
    let r = FunctionCall { prefix: Box::new(visit_expression(p, &c.prefix)), method, arguments };
    assert(forall|j: int| 0 <= j < arguments@.len() ==> r.view().arguments[j] == arguments@[j].view());
    assert(forall|j: int| 0 <= j < arguments@.len() ==> c.view().arguments[j] == c.arguments@[j].view());
    assert(r.view().arguments =~= walk_call::<P>(p.config(), c.view()).arguments);
    r
}

pub fn visit_function<P: NodeProcessor>(p: &P, f: &FunctionExpression) -> (r: FunctionExpression)
    ensures
        r.view() == walk_function::<P>(p.config(), f.view()),
    decreases f, 0nat,
{
    FunctionExpression {
        parameters: copy_typeds(&f.parameters),
        is_variadic: f.is_variadic,
        block: visit_block(p, &f.block),
    }
}

pub fn visit_entries<P: NodeProcessor>(p: &P, v: &Vec<TableEntry>) -> (r: Vec<TableEntry>)
    ensures
        r@.len() == v@.len(),
        forall|i: int| 0 <= i < v@.len() ==> #[trigger] r@[i].view() == walk_entry::<P>(p.config(), v@[i].view()),
    decreases v, 0nat,
{
    let mut out: Vec<TableEntry> = Vec::new();
    let mut i: usize = 0;
    while i < v.len()
        invariant
            i <= v@.len(),
            out@.len() == i,
            forall|j: int| 0 <= j < i ==> #[trigger] out@[j].view() == walk_entry::<P>(p.config(), v@[j].view()),
        decreases v@.len() - i,
    {
        assert(decreases_to!(v => v[i as int]));
        let e = match &v[i] {
            TableEntry::Value(x) => TableEntry::Value(visit_expression(p, x)),
            TableEntry::Index { key, value } => TableEntry::Index {
                key: visit_expression(p, key),
                value: visit_expression(p, value),
            },
            TableEntry::Field { name, value } => TableEntry::Field {
                name: name.clone(),
                value: visit_expression(p, value),
            },
        };
        out.push(e);
        i += 1;
    }
    out
}

/// Walks the children of an expression and then applies the processor's hook to it.
pub fn visit_expression<P: NodeProcessor>(p: &P, e: &Expression) -> (r: Expression)
    ensures
        r.view() == walk_expression::<P>(p.config(), e.view()),
    decreases e, 1nat,
{
    let rebuilt = match e {
        Expression::Unary { operator, operand } => Expression::Unary {
            operator: *operator,
            operand: Box::new(visit_expression(p, operand)),
        },
        Expression::Binary { operator, left, right } => Expression::Binary {
            operator: *operator,
            left: Box::new(visit_expression(p, left)),
            right: Box::new(visit_expression(p, right)),
        },
        Expression::Parenthese(inner) => Expression::Parenthese(Box::new(visit_expression(p, inner))),
        Expression::Table(entries) => {
            let out = visit_entries(p, entries);
            let r = Expression::Table(out);
            assert(forall|j: int| 0 <= j < out@.len() ==> r.view()->Table_0[j] == out@[j].view());
            assert(forall|j: int| 0 <= j < out@.len() ==> e.view()->Table_0[j] == entries@[j].view());
            assert(r.view()->Table_0 =~= walk_expression_children::<P>(p.config(), e.view())->Table_0);
            r
        },
        Expression::Function(f) => Expression::Function(Box::new(visit_function(p, f))),
        Expression::Call(c) => Expression::Call(visit_call(p, c)),
        Expression::Field { prefix, field } => Expression::Field {
            prefix: Box::new(visit_expression(p, prefix)),
            field: field.clone(),
        },
        Expression::Index { prefix, index } => Expression::Index {
            prefix: Box::new(visit_expression(p, prefix)),
            index: Box::new(visit_expression(p, index)),
        },
        _ => e.duplicate(),
    };
    assert(rebuilt.view() == walk_expression_children::<P>(p.config(), e.view()));
    p.process_expression(rebuilt)
}

pub fn visit_last<P: NodeProcessor>(p: &P, l: &Option<LastStatement>) -> (r: Option<LastStatement>)
    ensures
        match r {
            Some(x) => Some(x.view()),
            None => None::<SLast>,
        } == walk_last::<P>(
            p.config(),
            match l {
                Some(x) => Some(x.view()),
                None => None,
            },
        ),
    decreases l, 0nat,
{
    match l {
        Some(LastStatement::Return(v)) => {
            let out = visit_expressions(p, v);
            let r = LastStatement::Return(out);
            assert(forall|j: int| 0 <= j < out@.len() ==> r.view()->Return_0[j] == out@[j].view());
            assert(forall|j: int| 0 <= j < out@.len() ==> l->0.view()->Return_0[j] == v@[j].view());
            assert(r.view()->Return_0 =~= walk_expressions::<P>(p.config(), l->0.view()->Return_0));
            Some(r)
        },
        Some(LastStatement::Break) => Some(LastStatement::Break),
        Some(LastStatement::Continue) => Some(LastStatement::Continue),
        None => None,
    }
}

pub fn visit_block<P: NodeProcessor>(p: &P, b: &Block) -> (r: Block)
    ensures
        r.view() == walk_block::<P>(p.config(), b.view()),
    decreases b, 0nat,
{
    let mut out: Vec<Statement> = Vec::new();
    let mut i: usize = 0;
    while i < b.statements.len()
        invariant
            i <= b.statements@.len(),
            out@.len() == i,
            forall|j: int|
                0 <= j < i ==> #[trigger] out@[j].view() == walk_statement::<P>(p.config(), b.statements@[j].view()),
        decreases b.statements@.len() - i,
    {
        assert(decreases_to!(b.statements => b.statements[i as int]));
        out.push(visit_statement(p, &b.statements[i]));
        i += 1;
    }
    let last_statement = visit_last(p, &b.last_statement);
    let r = Block { statements: out, last_statement };
    assert(forall|j: int| 0 <= j < out@.len() ==> r.view().statements[j] == out@[j].view());
    assert(forall|j: int| 0 <= j < out@.len() ==> b.view().statements[j] == b.statements@[j].view());
    assert(r.view().statements =~= walk_block::<P>(p.config(), b.view()).statements);
    r
}

pub fn visit_branches<P: NodeProcessor>(p: &P, v: &Vec<IfBranch>) -> (r: Vec<IfBranch>)
    ensures
        r@.len() == v@.len(),
        forall|i: int|
            0 <= i < v@.len() ==> #[trigger] r@[i].view() == (SBranch {
                condition: walk_expression::<P>(p.config(), v@[i].view().condition),
                block: walk_block::<P>(p.config(), v@[i].view().block),
            }),
    decreases v, 0nat,
{
    let mut out: Vec<IfBranch> = Vec::new();
    let mut i: usize = 0;
    while i < v.len()
        invariant
            i <= v@.len(),
            out@.len() == i,
            forall|j: int|
                0 <= j < i ==> #[trigger] out@[j].view() == (SBranch {
                    condition: walk_expression::<P>(p.config(), v@[j].view().condition),
                    block: walk_block::<P>(p.config(), v@[j].view().block),
                }),
        decreases v@.len() - i,
    {
        assert(decreases_to!(v => v[i as int]));
        let branch = IfBranch {
            condition: visit_expression(p, &v[i].condition),
            block: visit_block(p, &v[i].block),
        };
        out.push(branch);
        i += 1;
    }
    out
}

/// Walks the children of a statement and then applies the processor's hook to it.
pub fn visit_statement<P: NodeProcessor>(p: &P, s: &Statement) -> (r: Statement)
    ensures
        r.view() == walk_statement::<P>(p.config(), s.view()),
    decreases s, 1nat,
{
    let rebuilt = match s {
        Statement::Assign { variables, values } => {
            let a = visit_expressions(p, variables);
            let b = visit_expressions(p, values);
            let r = Statement::Assign { variables: a, values: b };
            assert(forall|j: int| 0 <= j < a@.len() ==> r.view()->Assign_variables[j] == a@[j].view());
            assert(forall|j: int| 0 <= j < b@.len() ==> r.view()->Assign_values[j] == b@[j].view());
            assert(forall|j: int| 0 <= j < a@.len() ==> s.view()->Assign_variables[j] == variables@[j].view());
            assert(forall|j: int| 0 <= j < b@.len() ==> s.view()->Assign_values[j] == values@[j].view());
            assert(r.view()->Assign_variables =~= walk_statement_children::<P>(p.config(), s.view())->Assign_variables);
            assert(r.view()->Assign_values =~= walk_statement_children::<P>(p.config(), s.view())->Assign_values);
            r
        },
        Statement::CompoundAssign { operator, variable, value } => Statement::CompoundAssign {
            operator: *operator,
            variable: visit_expression(p, variable),
            value: visit_expression(p, value),
        },
        Statement::LocalAssign { variables, values } => {
            let b = visit_expressions(p, values);
            let r = Statement::LocalAssign { variables: copy_typeds(variables), values: b };
            assert(forall|j: int| 0 <= j < b@.len() ==> r.view()->LocalAssign_values[j] == b@[j].view());
            assert(forall|j: int| 0 <= j < b@.len() ==> s.view()->LocalAssign_values[j] == values@[j].view());
            assert(r.view()->LocalAssign_values =~= walk_statement_children::<P>(p.config(), s.view())->LocalAssign_values);
            r
        },
        Statement::LocalFunction { name, function } => Statement::LocalFunction {
            name: name.clone(),
            function: visit_function(p, function),
        },
        Statement::Function { name, function } => Statement::Function {
            name: name.clone(),
            function: visit_function(p, function),
        },
        Statement::Call(c) => Statement::Call(visit_call(p, c)),
        Statement::If { branches, else_block } => {
            let out = visit_branches(p, branches);
            let else_block = match else_block {
                Some(b) => Some(visit_block(p, b)),
                None => None,
            };
            let r = Statement::If { branches: out, else_block };
            assert(forall|j: int| 0 <= j < out@.len() ==> r.view()->If_branches[j] == out@[j].view());
            assert(forall|j: int| 0 <= j < out@.len() ==> s.view()->If_branches[j] == branches@[j].view());
            assert(r.view()->If_branches =~= walk_statement_children::<P>(p.config(), s.view())->If_branches);
            r
        },
        Statement::While { condition, block } => Statement::While {
            condition: visit_expression(p, condition),
            block: visit_block(p, block),
        },
        Statement::Repeat { block, condition } => Statement::Repeat {
            block: visit_block(p, block),
            condition: visit_expression(p, condition),
        },
        Statement::NumericFor { identifier, start, end, step, block } => Statement::NumericFor {
            identifier: identifier.duplicate(),
            start: visit_expression(p, start),
            end: visit_expression(p, end),
            step: match step {
                Some(e) => Some(visit_expression(p, e)),
                None => None,
            },
            block: visit_block(p, block),
        },
        Statement::GenericFor { identifiers, expressions, block } => {
            let b = visit_expressions(p, expressions);
            let r = Statement::GenericFor {
                identifiers: copy_typeds(identifiers),
                expressions: b,
                block: visit_block(p, block),
            };
            assert(forall|j: int| 0 <= j < b@.len() ==> r.view()->GenericFor_expressions[j] == b@[j].view());
            assert(forall|j: int| 0 <= j < b@.len() ==> s.view()->GenericFor_expressions[j] == expressions@[j].view());
            assert(r.view()->GenericFor_expressions =~= walk_statement_children::<P>(p.config(), s.view())->GenericFor_expressions);
            r
        },
        Statement::Do(b) => Statement::Do(visit_block(p, b)),
    };
    assert(rebuilt.view() == walk_statement_children::<P>(p.config(), s.view()));
    p.process_statement(rebuilt)
}

} // verus!
