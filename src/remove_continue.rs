//! Continue elimination: rewrites every loop body that holds a `continue` so that
//! it only uses `break` and structured control flow.
use vstd::prelude::*;
use crate::nodes::{
    Block, Expression, IfBranch, LastStatement, SBlock, SBranch, SExpression, SLast, SStatement,
    STyped, Statement, TypedIdentifier, UnaryOperator,
};
use crate::hashing::source_hash;
use crate::rules::{
    Context, PropertyKind, RuleConfigurationError, RuleProperties, configuration_error, last_string,
    properties_view, schema_view, string_property, validate_properties,
};
use crate::runtime_variable::{MISSING_NAME_MESSAGE, RuntimeVariableBuilder, has_name_placeholder, render};
use crate::names::{collect_block, fresh, fresh_name, fresh_name_is_fresh, names_block, strings_view};
use crate::visit::{NodeProcessor, empty_block, visit_block, walk_block};

verus! {

// ----- counting -----

pub open spec fn last_count(l: Option<SLast>, continues: bool) -> nat {
    match l {
        Some(SLast::Continue) => if continues { 1 } else { 0 },
        Some(SLast::Break) => if continues { 0 } else { 1 },
        _ => 0,
    }
}

/// How many `continue` (or, with `continues` false, `break`) statements end a
/// block reachable from `b` through nested `if` and `do` statements only.
pub open spec fn jump_count(b: SBlock, continues: bool) -> nat
    decreases b, 0nat,
{
    last_count(b.last_statement, continues) + statements_jump_count(b.statements, continues)
}

pub open spec fn statements_jump_count(s: Seq<SStatement>, continues: bool) -> nat
    decreases s, 0nat,
{
    if s.len() == 0 {
        0
    } else {
        statements_jump_count(s.drop_last(), continues) + statement_jump_count(s.last(), continues)
    }
}

pub open spec fn branches_jump_count(s: Seq<SBranch>, continues: bool) -> nat
    decreases s, 0nat,
{
    if s.len() == 0 {
        0
    } else {
        branches_jump_count(s.drop_last(), continues) + jump_count(s.last().block, continues)
    }
}

pub open spec fn statement_jump_count(s: SStatement, continues: bool) -> nat
    decreases s, 0nat,
{
    match s {
        SStatement::If { branches, else_block } => branches_jump_count(branches, continues) + match else_block {
            Some(b) => jump_count(b, continues),
            None => 0,
        },
        SStatement::Do(b) => jump_count(b, continues),
        _ => 0,
    }
}

/// A count as a `usize` holds it: saturated at `usize::MAX`.
pub open spec fn capped(n: nat) -> usize {
    if n > usize::MAX { usize::MAX } else { n as usize }
}

fn saturating_sum(a: usize, b: usize, Ghost(x): Ghost<nat>, Ghost(y): Ghost<nat>) -> (r: usize)
    requires
        a == capped(x),
        b == capped(y),
    ensures
        r == capped(x + y),
{
    if a > usize::MAX - b { usize::MAX } else { a + b }
}

/// Counts the `continue` and the `break` statements of `block` that are reachable
/// through nested `if` and `do` statements (nested loops are their own business).
pub fn count_continue_break(block: &Block) -> (r: (usize, usize))
    ensures
        r.0 == capped(jump_count(block.view(), true)),
        r.1 == capped(jump_count(block.view(), false)),
    decreases block, 1nat,
{
    let (mut continue_count, mut break_count): (usize, usize) = match &block.last_statement {
        Some(LastStatement::Continue) => (1, 0),
        Some(LastStatement::Break) => (0, 1),
        _ => (0, 0),
    };
    let ghost stmts = block.view().statements;
    let ghost last_c = last_count(block.view().last_statement, true);
    let ghost last_b = last_count(block.view().last_statement, false);
    let mut i: usize = 0;
    while i < block.statements.len()
        invariant
            i <= block.statements@.len(),
            stmts == block.view().statements,
            stmts.len() == block.statements@.len(),
            last_c == last_count(block.view().last_statement, true),
            last_b == last_count(block.view().last_statement, false),
            continue_count == capped(last_c + statements_jump_count(stmts.take(i as int), true)),
            break_count == capped(last_b + statements_jump_count(stmts.take(i as int), false)),
        decreases block.statements@.len() - i,
    {
        assert(decreases_to!(block.statements => block.statements[i as int]));
        let (c, b) = count_statement(&block.statements[i]);
        assert(stmts.take(i + 1).drop_last() == stmts.take(i as int));
        assert(stmts[i as int] == block.statements@[i as int].view());
        continue_count = saturating_sum(
            continue_count,
            c,
            Ghost(last_c + statements_jump_count(stmts.take(i as int), true)),
            Ghost(statement_jump_count(stmts[i as int], true)),
        );
        break_count = saturating_sum(
            break_count,
            b,
            Ghost(last_b + statements_jump_count(stmts.take(i as int), false)),
            Ghost(statement_jump_count(stmts[i as int], false)),
        );
        i += 1;
    }
    assert(stmts.take(stmts.len() as int) == stmts);
    (continue_count, break_count)
}

pub open spec fn branches_view(v: Seq<IfBranch>) -> Seq<SBranch> {
    Seq::new(v.len(), |i: int| v[i].view())
}

fn count_branches(branches: &Vec<IfBranch>) -> (r: (usize, usize))
    ensures
        r.0 == capped(branches_jump_count(branches_view(branches@), true)),
        r.1 == capped(branches_jump_count(branches_view(branches@), false)),
    decreases branches, 0nat,
{
    let ghost bs = branches_view(branches@);
    let mut continue_count: usize = 0;
    let mut break_count: usize = 0;
    let mut i: usize = 0;
    while i < branches.len()
        invariant
            i <= branches@.len(),
            bs == branches_view(branches@),
            continue_count == capped(branches_jump_count(bs.take(i as int), true)),
            break_count == capped(branches_jump_count(bs.take(i as int), false)),
        decreases branches@.len() - i,
    {
        proof {
            assert(decreases_to!(branches => branches[i as int]));
            assert(decreases_to!(branches[i as int] => branches[i as int].block));
        }
        let (c, b) = count_continue_break(&branches[i].block);
        assert(bs.take(i + 1).drop_last() == bs.take(i as int));
        continue_count = saturating_sum(
            continue_count,
            c,
            Ghost(branches_jump_count(bs.take(i as int), true)),
            Ghost(jump_count(bs[i as int].block, true)),
        );
        break_count = saturating_sum(
            break_count,
            b,
            Ghost(branches_jump_count(bs.take(i as int), false)),
            Ghost(jump_count(bs[i as int].block, false)),
        );
        i += 1;
    }
    assert(bs.take(bs.len() as int) == bs);
    (continue_count, break_count)
}

fn count_statement(stmt: &Statement) -> (r: (usize, usize))
    ensures
        r.0 == capped(statement_jump_count(stmt.view(), true)),
        r.1 == capped(statement_jump_count(stmt.view(), false)),
    decreases stmt, 0nat,
{
    match stmt {
        Statement::If { branches, else_block } => {
            let ghost bs = stmt.view()->If_branches;
            assert(forall|j: int| 0 <= j < branches@.len() ==> bs[j] == branches@[j].view());
            assert(bs =~= branches_view(branches@));
            let (continue_count, break_count) = count_branches(branches);
            match else_block {
                Some(e) => {
                    let (c, b) = count_continue_break(e);
                    (
                        saturating_sum(continue_count, c, Ghost(branches_jump_count(bs, true)), Ghost(jump_count(e.view(), true))),
                        saturating_sum(break_count, b, Ghost(branches_jump_count(bs, false)), Ghost(jump_count(e.view(), false))),
                    )
                },
                None => (continue_count, break_count),
            }
        },
        Statement::Do(b) => count_continue_break(b),
        _ => (0, 0),
    }
}

// ----- turning jumps into breaks -----

/// `name = true`
pub open spec fn flag_assign(name: Seq<char>) -> SStatement {
    SStatement::Assign {
        variables: seq![SExpression::Identifier(name)],
        values: seq![SExpression::True],
    }
}

/// What is inserted before a rewritten jump: the flag assignment when the flag
/// marks this kind of jump (`on_continue` says which kind it marks).
pub open spec fn flag_statements(flag: Option<Seq<char>>, on_continue: bool, is_continue: bool) -> Seq<SStatement> {
    match flag {
        Some(name) => if on_continue == is_continue { seq![flag_assign(name)] } else { seq![] },
        None => seq![],
    }
}

/// Every `continue` and `break` reachable through `if` and `do` becomes a `break`,
/// preceded by the flag assignment where the flag marks that kind of jump.
pub open spec fn retarget(b: SBlock, flag: Option<Seq<char>>, on_continue: bool) -> SBlock
    decreases b, 0nat,
{
    let stmts = Seq::new(
        b.statements.len(),
        |i: int|
            if 0 <= i < b.statements.len() {
                retarget_statement(b.statements[i], flag, on_continue)
            } else {
                SStatement::Do(empty_block())
            },
    );
    match b.last_statement {
        Some(SLast::Continue) => SBlock {
            statements: stmts + flag_statements(flag, on_continue, true),
            last_statement: Some(SLast::Break),
        },
        Some(SLast::Break) => SBlock {
            statements: stmts + flag_statements(flag, on_continue, false),
            last_statement: Some(SLast::Break),
        },
        _ => SBlock { statements: stmts, last_statement: b.last_statement },
    }
}

pub open spec fn retarget_statement(s: SStatement, flag: Option<Seq<char>>, on_continue: bool) -> SStatement
    decreases s, 0nat,
{
    match s {
        SStatement::If { branches, else_block } => SStatement::If {
            branches: Seq::new(
                branches.len(),
                |i: int|
                    if 0 <= i < branches.len() {
                        SBranch {
                            condition: branches[i].condition,
                            block: retarget(branches[i].block, flag, on_continue),
                        }
                    } else {
                        SBranch { condition: SExpression::Nil, block: empty_block() }
                    },
            ),
            else_block: match else_block {
                Some(e) => Some(retarget(e, flag, on_continue)),
                None => None,
            },
        },
        SStatement::Do(b) => SStatement::Do(retarget(b, flag, on_continue)),
        _ => s,
    }
}

fn flag_assignment(name: &String) -> (r: Statement)
    ensures
        r.view() == flag_assign(name@),
{
    let r = Statement::Assign {
        variables: vec![Expression::Identifier(name.clone())],
        values: vec![Expression::True],
    };
    assert(r.view()->Assign_variables =~= flag_assign(name@)->Assign_variables);
    assert(r.view()->Assign_values =~= flag_assign(name@)->Assign_values);
    r
}

pub open spec fn flag_view(flag: Option<&String>) -> Option<Seq<char>> {
    match flag {
        Some(n) => Some(n@),
        None => None,
    }
}

fn retarget_block(b: &Block, flag: Option<&String>, on_continue: bool) -> (r: Block)
    ensures
        r.view() == retarget(b.view(), flag_view(flag), on_continue),
    decreases b, 1nat,
{
    let ghost fv = flag_view(flag);
    let ghost stmts = Seq::new(
        b.view().statements.len(),
        |i: int|
            if 0 <= i < b.view().statements.len() {
                retarget_statement(b.view().statements[i], fv, on_continue)
            } else {
                SStatement::Do(empty_block())
            },
    );
    let mut out: Vec<Statement> = Vec::new();
    let mut i: usize = 0;
    while i < b.statements.len()
        invariant
            i <= b.statements@.len(),
            out@.len() == i,
            fv == flag_view(flag),
            forall|j: int|
                0 <= j < i ==> #[trigger] out@[j].view() == retarget_statement(
                    b.statements@[j].view(),
                    fv,
                    on_continue,
                ),
        decreases b.statements@.len() - i,
    {
        assert(decreases_to!(b.statements => b.statements[i as int]));
        out.push(retarget_stmt(&b.statements[i], flag, on_continue));
        i += 1;
    }
    assert(forall|j: int| 0 <= j < out@.len() ==> b.view().statements[j] == b.statements@[j].view());
    assert(forall|j: int| 0 <= j < out@.len() ==> out@[j].view() == stmts[j]);
    let n = out.len();
    let last_statement = match &b.last_statement {
        Some(LastStatement::Continue) => {
            match flag {
                Some(name) => if on_continue {
                    out.push(flag_assignment(name));
                },
                None => {},
            }
            Some(LastStatement::Break)
        },
        Some(LastStatement::Break) => {
            match flag {
                Some(name) => if !on_continue {
                    out.push(flag_assignment(name));
                },
                None => {},
            }
            Some(LastStatement::Break)
        },
        Some(l) => Some(l.duplicate()),
        None => None,
    };
    let r = Block { statements: out, last_statement };
    assert(forall|j: int| 0 <= j < out@.len() ==> r.view().statements[j] == out@[j].view());
    assert(r.view().statements =~= retarget(b.view(), fv, on_continue).statements);
    r
}

fn retarget_branches(v: &Vec<IfBranch>, flag: Option<&String>, on_continue: bool) -> (r: Vec<IfBranch>)
    ensures
        r@.len() == v@.len(),
        forall|i: int|
            0 <= i < v@.len() ==> #[trigger] r@[i].view() == (SBranch {
                condition: v@[i].view().condition,
                block: retarget(v@[i].view().block, flag_view(flag), on_continue),
            }),
    decreases v, 0nat,
{
    let mut out: Vec<IfBranch> = Vec::new();
    let mut i: usize = 0;
    while i < v.len()
        invariant
            i <= v@.len(),
            out@.len() == i,
            forall|j: int|
                0 <= j < i ==> #[trigger] out@[j].view() == (SBranch {
                    condition: v@[j].view().condition,
                    block: retarget(v@[j].view().block, flag_view(flag), on_continue),
                }),
        decreases v@.len() - i,
    {
        assert(decreases_to!(v => v[i as int]));
        out.push(IfBranch {
            condition: v[i].condition.duplicate(),
            block: retarget_block(&v[i].block, flag, on_continue),
        });
        i += 1;
    }
    out
}

fn retarget_stmt(s: &Statement, flag: Option<&String>, on_continue: bool) -> (r: Statement)
    ensures
        r.view() == retarget_statement(s.view(), flag_view(flag), on_continue),
    decreases s, 0nat,
{
    match s {
        Statement::If { branches, else_block } => {
            let out = retarget_branches(branches, flag, on_continue);
            let else_block = match else_block {
                Some(e) => Some(retarget_block(e, flag, on_continue)),
                None => None,
            };
            let r = Statement::If { branches: out, else_block };
            assert(forall|j: int| 0 <= j < out@.len() ==> r.view()->If_branches[j] == out@[j].view());
            assert(forall|j: int| 0 <= j < out@.len() ==> s.view()->If_branches[j] == branches@[j].view());
            assert(r.view()->If_branches =~= retarget_statement(s.view(), flag_view(flag), on_continue)->If_branches);
            r
        },
        Statement::Do(b) => Statement::Do(retarget_block(b, flag, on_continue)),
        _ => s.duplicate(),
    }
}

fn precede_block(b: &Block, a: &Statement) -> (r: Block)
    ensures
        r.view() == precede_continues(b.view(), a.view()),
    decreases b, 1nat,
{
    let ghost av = a.view();
    let ghost stmts = Seq::new(
        b.view().statements.len(),
        |i: int|
            if 0 <= i < b.view().statements.len() {
                precede_statement(b.view().statements[i], av)
            } else {
                SStatement::Do(empty_block())
            },
    );
    let mut out: Vec<Statement> = Vec::new();
    let mut i: usize = 0;
    while i < b.statements.len()
        invariant
            i <= b.statements@.len(),
            out@.len() == i,
            av == a.view(),
            forall|j: int| 0 <= j < i ==> #[trigger] out@[j].view() == precede_statement(b.statements@[j].view(), av),
        decreases b.statements@.len() - i,
    {
        assert(decreases_to!(b.statements => b.statements[i as int]));
        out.push(precede_stmt(&b.statements[i], a));
        i += 1;
    }
    assert(forall|j: int| 0 <= j < out@.len() ==> b.view().statements[j] == b.statements@[j].view());
    assert(forall|j: int| 0 <= j < out@.len() ==> out@[j].view() == stmts[j]);
    let last_statement = match &b.last_statement {
        Some(LastStatement::Continue) => {
            out.push(a.duplicate());
            Some(LastStatement::Continue)
        },
        Some(l) => Some(l.duplicate()),
        None => None,
    };
    let r = Block { statements: out, last_statement };
    assert(forall|j: int| 0 <= j < out@.len() ==> r.view().statements[j] == out@[j].view());
    assert(r.view().statements =~= precede_continues(b.view(), av).statements);
    r
}

fn precede_branches(v: &Vec<IfBranch>, a: &Statement) -> (r: Vec<IfBranch>)
    ensures
        r@.len() == v@.len(),
        forall|i: int|
            0 <= i < v@.len() ==> #[trigger] r@[i].view() == (SBranch {
                condition: v@[i].view().condition,
                block: precede_continues(v@[i].view().block, a.view()),
            }),
    decreases v, 0nat,
{
    let mut out: Vec<IfBranch> = Vec::new();
    let mut i: usize = 0;
    while i < v.len()
        invariant
            i <= v@.len(),
            out@.len() == i,
            forall|j: int|
                0 <= j < i ==> #[trigger] out@[j].view() == (SBranch {
                    condition: v@[j].view().condition,
                    block: precede_continues(v@[j].view().block, a.view()),
                }),
        decreases v@.len() - i,
    {
        assert(decreases_to!(v => v[i as int]));
        out.push(IfBranch { condition: v[i].condition.duplicate(), block: precede_block(&v[i].block, a) });
        i += 1;
    }
    out
}

fn precede_stmt(s: &Statement, a: &Statement) -> (r: Statement)
    ensures
        r.view() == precede_statement(s.view(), a.view()),
    decreases s, 0nat,
{
    match s {
        Statement::If { branches, else_block } => {
            let out = precede_branches(branches, a);
            let else_block = match else_block {
                Some(e) => Some(precede_block(e, a)),
                None => None,
            };
            let r = Statement::If { branches: out, else_block };
            assert(forall|j: int| 0 <= j < out@.len() ==> r.view()->If_branches[j] == out@[j].view());
            assert(forall|j: int| 0 <= j < out@.len() ==> s.view()->If_branches[j] == branches@[j].view());
            assert(r.view()->If_branches =~= precede_statement(s.view(), a.view())->If_branches);
            r
        },
        Statement::Do(b) => Statement::Do(precede_block(b, a)),
        _ => s.duplicate(),
    }
}

/// Every `continue` reachable through `if` and `do` becomes a `break`.
pub fn continues_to_breaks(block: &Block) -> (r: Block)
    ensures
        r.view() == retarget(block.view(), None, true),
{
    retarget_block(block, None, true)
}

// ----- the loop rewrite -----

/// `if <condition> then break end`
pub open spec fn break_if(condition: SExpression) -> SStatement {
    SStatement::If {
        branches: seq![SBranch {
            condition,
            block: SBlock { statements: seq![], last_statement: Some(SLast::Break) },
        }],
        else_block: None,
    }
}

/// `local <name> = false`
pub open spec fn false_local(name: Seq<char>) -> SStatement {
    SStatement::LocalAssign {
        variables: seq![STyped { name, type_annotation: None }],
        values: seq![SExpression::False],
    }
}

/// `repeat <body> until true`
pub open spec fn single_pass(body: SBlock) -> SStatement {
    SStatement::Repeat { block: body, condition: SExpression::True }
}

/// A body whose end can be reached gets `name = true` there: with a continue
/// flag, reaching the end also means going on to the next iteration.
pub open spec fn mark_completion(b: SBlock, name: Seq<char>) -> SBlock {
    match b.last_statement {
        None => SBlock { statements: b.statements.push(flag_assign(name)), last_statement: None },
        _ => b,
    }
}

/// The body of a loop once its `continue` statements are gone.
///
/// With no `continue`, the body stays. With `continue` and no `break`, the body
/// runs inside a single-pass `repeat ... until true` and each `continue` becomes
/// a `break` of it. With both, a local flag records the rarer kind of jump and a
/// conditional after the single pass re-raises the genuine `break`s: a break
/// flag is set by each genuine `break`; a continue flag by each `continue` and
/// by reaching the end of the body, so that it is unset exactly after a
/// genuine `break`.
pub open spec fn loop_body(b: SBlock, continue_name: Seq<char>, break_name: Seq<char>) -> SBlock {
    let continues = capped(jump_count(b, true));
    let breaks = capped(jump_count(b, false));
    if continues == 0 {
        b
    } else if breaks > 0 {
        let on_continue = continues < breaks;
        let name = if on_continue { continue_name } else { break_name };
        let inner = if on_continue {
            mark_completion(retarget(b, Some(name), true), name)
        } else {
            retarget(b, Some(name), false)
        };
        SBlock {
            statements: seq![false_local(name), single_pass(inner), break_if(flag_test(name, on_continue))],
            last_statement: None,
        }
    } else {
        SBlock { statements: seq![single_pass(retarget(b, None, true))], last_statement: None }
    }
}

/// `<name> = <value>`
pub open spec fn assign_to(name: Seq<char>, value: SExpression) -> SStatement {
    SStatement::Assign { variables: seq![SExpression::Identifier(name)], values: seq![value] }
}

/// Each `continue` reachable through `if` and `do` gets `a` just before it.
pub open spec fn precede_continues(b: SBlock, a: SStatement) -> SBlock
    decreases b, 0nat,
{
    let stmts = Seq::new(
        b.statements.len(),
        |i: int|
            if 0 <= i < b.statements.len() {
                precede_statement(b.statements[i], a)
            } else {
                SStatement::Do(empty_block())
            },
    );
    match b.last_statement {
        Some(SLast::Continue) => SBlock { statements: stmts.push(a), last_statement: Some(SLast::Continue) },
        _ => SBlock { statements: stmts, last_statement: b.last_statement },
    }
}

pub open spec fn precede_statement(s: SStatement, a: SStatement) -> SStatement
    decreases s, 0nat,
{
    match s {
        SStatement::If { branches, else_block } => SStatement::If {
            branches: Seq::new(
                branches.len(),
                |i: int|
                    if 0 <= i < branches.len() {
                        SBranch { condition: branches[i].condition, block: precede_continues(branches[i].block, a) }
                    } else {
                        SBranch { condition: SExpression::Nil, block: empty_block() }
                    },
            ),
            else_block: match else_block {
                Some(e) => Some(precede_continues(e, a)),
                None => None,
            },
        },
        SStatement::Do(b) => SStatement::Do(precede_continues(b, a)),
        _ => s,
    }
}

/// The body of a `repeat` loop with its condition computed inside it: into
/// `name` before each `continue` and where the body ends, so that the
/// condition reads the body's locals as the loop's own `until` does.
pub open spec fn until_body(b: SBlock, name: Seq<char>, condition: SExpression) -> SBlock {
    let a = assign_to(name, condition);
    let m = precede_continues(b, a);
    match m.last_statement {
        None => SBlock { statements: m.statements.push(a), last_statement: None },
        _ => m,
    }
}

/// A `repeat` loop whose body holds a `continue` becomes
/// `repeat local <until> = false <rewritten body> until <until>`: the body
/// computes the condition into the hidden local before it is left.
pub open spec fn repeat_rewrite(
    block: SBlock,
    condition: SExpression,
    continue_name: Seq<char>,
    break_name: Seq<char>,
    until_name: Seq<char>,
) -> SStatement {
    if capped(jump_count(block, true)) == 0 {
        SStatement::Repeat { block, condition }
    } else {
        SStatement::Repeat {
            block: SBlock {
                statements: seq![false_local(until_name)] + loop_body(
                    until_body(block, until_name, condition),
                    continue_name,
                    break_name,
                ).statements,
                last_statement: None,
            },
            condition: SExpression::Identifier(until_name),
        }
    }
}

/// The rewrite of one statement: loops get a new body, the rest stays.
pub open spec fn rewrite_loop(
    s: SStatement,
    continue_name: Seq<char>,
    break_name: Seq<char>,
    until_name: Seq<char>,
) -> SStatement {
    match s {
        SStatement::While { condition, block } => SStatement::While {
            condition,
            block: loop_body(block, continue_name, break_name),
        },
        SStatement::Repeat { block, condition } => repeat_rewrite(block, condition, continue_name, break_name, until_name),
        SStatement::NumericFor { identifier, start, end, step, block } => SStatement::NumericFor {
            identifier,
            start,
            end,
            step,
            block: loop_body(block, continue_name, break_name),
        },
        SStatement::GenericFor { identifiers, expressions, block } => SStatement::GenericFor {
            identifiers,
            expressions,
            block: loop_body(block, continue_name, break_name),
        },
        _ => s,
    }
}

/// The spec of the flag's test after the single pass.
pub open spec fn flag_test(name: Seq<char>, on_continue: bool) -> SExpression {
    if on_continue {
        SExpression::Unary { operator: UnaryOperator::Not, operand: Box::new(SExpression::Identifier(name)) }
    } else {
        SExpression::Identifier(name)
    }
}

fn flagged_single_pass(name: String, on_continue: bool, body: Block) -> (r: Block)
    ensures
        r.view() == (SBlock {
            statements: seq![
                false_local(name@),
                single_pass(body.view()),
                break_if(flag_test(name@, on_continue)),
            ],
            last_statement: None,
        }),
{
    let ghost n = name@;
    let ghost bv = body.view();
    let condition = if on_continue {
        Expression::Unary {
            operator: UnaryOperator::Not,
            operand: Box::new(Expression::Identifier(name.clone())),
        }
    } else {
        Expression::Identifier(name.clone())
    };
    let local = Statement::LocalAssign {
        variables: vec![TypedIdentifier { name, type_annotation: None }],
        values: vec![Expression::False],
    };
    assert(local.view()->LocalAssign_variables =~= false_local(n)->LocalAssign_variables);
    assert(local.view()->LocalAssign_values =~= false_local(n)->LocalAssign_values);
    let break_block = Block { statements: Vec::new(), last_statement: Some(LastStatement::Break) };
    assert(break_block.view().statements =~= seq![]);
    let branch = IfBranch { condition, block: break_block };
    let handler = Statement::If { branches: vec![branch], else_block: None };
    assert(handler.view()->If_branches[0] == branch.view());
    assert(handler.view()->If_branches =~= break_if(flag_test(n, on_continue))->If_branches);
    let repeat = Statement::Repeat { block: body, condition: Expression::True };
    let ghost (lv, rv, hv) = (local.view(), repeat.view(), handler.view());
    let r = Block { statements: vec![local, repeat, handler], last_statement: None };
    assert(r.view().statements.len() == 3);
    assert(r.view().statements[0] == lv);
    assert(r.view().statements[1] == rv);
    assert(r.view().statements[2] == hv);
    assert(r.view().statements =~= seq![false_local(n), single_pass(bv), break_if(flag_test(n, on_continue))]);
    r
}

/// The loop rewrite with the names of its two flags.
pub struct Processor {
    pub break_variable_name: String,
    pub continue_variable_name: String,
    pub until_variable_name: String,
}

impl Processor {
    /// Rewrites the jumps of a loop body that holds both kinds: each becomes a
    /// `break`, preceded by setting the flag where the flag marks its kind.
    pub fn continues_with_breaks_to_breaks(&self, block: &Block, with_continue_statement: bool) -> (r: Block)
        ensures
            r.view() == retarget(
                block.view(),
                Some(if with_continue_statement { self.continue_variable_name@ } else { self.break_variable_name@ }),
                with_continue_statement,
            ),
    {
        if with_continue_statement {
            retarget_block(block, Some(&self.continue_variable_name), true)
        } else {
            retarget_block(block, Some(&self.break_variable_name), false)
        }
    }

    /// The new body of a loop whose body is `block`.
    pub fn process(&self, block: &Block) -> (r: Block)
        ensures
            r.view() == loop_body(block.view(), self.continue_variable_name@, self.break_variable_name@),
    {
        let (continue_count, break_count) = count_continue_break(block);
        if continue_count == 0 {
            return block.duplicate();
        }
        if break_count > 0 {
            let with_continue_statement = continue_count < break_count;
            let name = if with_continue_statement {
                self.continue_variable_name.clone()
            } else {
                self.break_variable_name.clone()
            };
            let mut body = self.continues_with_breaks_to_breaks(block, with_continue_statement);
            if with_continue_statement && body.last_statement.is_none() {
                let ghost before = body.view();
                let mark = flag_assignment(&name);
                let ghost mv = mark.view();
                body.statements.push(mark);
                assert(body.view().statements =~= before.statements.push(mv));
            }
            flagged_single_pass(name, with_continue_statement, body)
        } else {
            let body = continues_to_breaks(block);
            let repeat = Statement::Repeat { block: body, condition: Expression::True };
            let ghost rv = repeat.view();
            let r = Block { statements: vec![repeat], last_statement: None };
            assert(r.view().statements.len() == 1);
            assert(r.view().statements[0] == rv);
            assert(r.view().statements =~= loop_body(
                block.view(),
                self.continue_variable_name@,
                self.break_variable_name@,
            ).statements);
            r
        }
    }
}

impl Processor {
    /// The rewrite of `repeat <block> until <condition>`.
    pub fn process_repeat(&self, block: Block, condition: Expression) -> (r: Statement)
        ensures
            r.view() == repeat_rewrite(
                block.view(),
                condition.view(),
                self.continue_variable_name@,
                self.break_variable_name@,
                self.until_variable_name@,
            ),
    {
        let (continue_count, _) = count_continue_break(&block);
        if continue_count == 0 {
            return Statement::Repeat { block, condition };
        }
        let ghost un = self.until_variable_name@;
        let ghost cv = condition.view();
        let a = Statement::Assign {
            variables: vec![Expression::Identifier(self.until_variable_name.clone())],
            values: vec![condition],
        };
        assert(a.view()->Assign_variables =~= seq![SExpression::Identifier(un)]);
        assert(a.view()->Assign_values =~= seq![cv]);
        assert(a.view() == assign_to(un, cv));
        let mut body = precede_block(&block, &a);
        if body.last_statement.is_none() {
            let ghost before = body.view();
            let ghost av = a.view();
            body.statements.push(a);
            assert(body.view().statements =~= before.statements.push(av));
        }
        assert(body.view() == until_body(block.view(), un, cv));
        let rewritten = self.process(&body);
        let ghost rv = rewritten.view();
        let local = Statement::LocalAssign {
            variables: vec![TypedIdentifier { name: self.until_variable_name.clone(), type_annotation: None }],
            values: vec![Expression::False],
        };
        assert(local.view()->LocalAssign_variables =~= false_local(un)->LocalAssign_variables);
        assert(local.view()->LocalAssign_values =~= false_local(un)->LocalAssign_values);
        let ghost lv = local.view();
        let mut statements = vec![local];
        let mut rest = rewritten.statements;
        statements.append(&mut rest);
        let new_block = Block { statements, last_statement: None };
        assert(new_block.view().statements =~= seq![lv] + rv.statements);
        let test = Expression::Identifier(self.until_variable_name.clone());
        let ghost nbv = new_block.view();
        let ghost tv = test.view();
        let r = Statement::Repeat { block: new_block, condition: test };
        assert(r.view() == SStatement::Repeat { block: nbv, condition: tv });
        r
    }
}

impl NodeProcessor for Processor {
    /// The names of the continue flag, of the break flag and of the computed
    /// `until` condition.
    type Config = (Seq<char>, Seq<char>, Seq<char>);

    open spec fn config(&self) -> (Seq<char>, Seq<char>, Seq<char>) {
        (self.continue_variable_name@, self.break_variable_name@, self.until_variable_name@)
    }

    open spec fn statement_spec(c: (Seq<char>, Seq<char>, Seq<char>), s: SStatement) -> SStatement {
        rewrite_loop(s, c.0, c.1, c.2)
    }

    open spec fn expression_spec(c: (Seq<char>, Seq<char>, Seq<char>), e: SExpression) -> SExpression {
        e
    }

    fn process_statement(&self, s: Statement) -> (r: Statement) {
        match s {
            Statement::While { condition, block } => Statement::While { condition, block: self.process(&block) },
            Statement::Repeat { block, condition } => self.process_repeat(block, condition),
            Statement::NumericFor { identifier, start, end, step, block } => Statement::NumericFor {
                identifier,
                start,
                end,
                step,
                block: self.process(&block),
            },
            Statement::GenericFor { identifiers, expressions, block } => Statement::GenericFor {
                identifiers,
                expressions,
                block: self.process(&block),
            },
            _ => s,
        }
    }

    fn process_expression(&self, e: Expression) -> (r: Expression) {
        e
    }
}

// ----- the rule -----

pub const REMOVE_CONTINUE_RULE_NAME: &'static str = "remove_continue";

pub open spec fn runtime_variable_format_key() -> Seq<char> {
    seq!['r', 'u', 'n', 't', 'i', 'm', 'e', '_', 'v', 'a', 'r', 'i', 'a', 'b', 'l', 'e', '_', 'f', 'o', 'r', 'm', 'a', 't']
}

/// The properties that a rule with only a runtime variable format accepts.
pub open spec fn format_schema() -> Seq<(Seq<char>, PropertyKind)> {
    seq![(runtime_variable_format_key(), PropertyKind::String)]
}

pub(crate) fn format_schema_exec() -> (r: Vec<(&'static str, PropertyKind)>)
    ensures
        schema_view(r@) == format_schema(),
{
    let r = vec![("runtime_variable_format", PropertyKind::String)];
    proof {
        reveal_strlit("runtime_variable_format");
        assert(schema_view(r@)[0].0 =~= runtime_variable_format_key());
        assert(schema_view(r@) =~= format_schema());
    }
    r
}

/// The names of the continue flag, of the break flag and of the computed
/// `until` condition, for a format and a source: each is its rendered name
/// unless a name of the tree (`taken`) or an earlier one of the three has
/// it, in which case it is made fresh.
pub open spec fn flag_names(format: Seq<char>, source: Seq<u8>, taken: Seq<Seq<char>>) -> (Seq<char>, Seq<char>, Seq<char>) {
    let c = fresh_name(render(format, "continue"@, source_hash(source)), taken);
    let b = fresh_name(render(format, "break"@, source_hash(source)), taken.push(c));
    let u = fresh_name(render(format, "until"@, source_hash(source)), taken.push(c).push(b));
    (c, b, u)
}

/// The three helper names differ from each other and from every name of the tree.
pub proof fn flag_names_are_fresh(format: Seq<char>, source: Seq<u8>, taken: Seq<Seq<char>>)
    ensures
        !taken.contains(flag_names(format, source, taken).0),
        !taken.contains(flag_names(format, source, taken).1),
        !taken.contains(flag_names(format, source, taken).2),
        flag_names(format, source, taken).0 != flag_names(format, source, taken).1,
        flag_names(format, source, taken).0 != flag_names(format, source, taken).2,
        flag_names(format, source, taken).1 != flag_names(format, source, taken).2,
{
    let c = flag_names(format, source, taken).0;
    let b = flag_names(format, source, taken).1;
    let u = flag_names(format, source, taken).2;
    fresh_name_is_fresh(render(format, "continue"@, source_hash(source)), taken);
    fresh_name_is_fresh(render(format, "break"@, source_hash(source)), taken.push(c));
    fresh_name_is_fresh(render(format, "until"@, source_hash(source)), taken.push(c).push(b));
    if taken.contains(b) {
        let i = choose|i: int| 0 <= i < taken.len() && taken[i] == b;
        assert(taken.push(c)[i] == b);
    }
    if taken.contains(u) {
        let i = choose|i: int| 0 <= i < taken.len() && taken[i] == u;
        assert(taken.push(c).push(b)[i] == u);
    }
    assert(taken.push(c)[taken.len() as int] == c);
    assert(taken.push(c).push(b)[taken.len() as int] == c);
    assert(taken.push(c).push(b)[taken.len() + 1 as int] == b);
}

/// A rule that removes continue statements and converts them into breaks.
#[derive(Debug, PartialEq, Eq)]
pub struct RemoveContinue {
    runtime_variable_format: String,
}

impl RemoveContinue {
    pub closed spec fn format(&self) -> Seq<char> {
        self.runtime_variable_format@
    }

    pub fn new() -> (r: Self)
        ensures
            r.format() == "_DARKLUA_REMOVE_CONTINUE_{name}{hash}"@,
    {
        RemoveContinue { runtime_variable_format: "_DARKLUA_REMOVE_CONTINUE_{name}{hash}".to_owned() }
    }

    pub fn runtime_variable_format(&self) -> (r: &str)
        ensures
            r@ == self.format(),
    {
        self.runtime_variable_format.as_str()
    }

    pub fn get_name(&self) -> (r: &'static str)
        ensures
            r@ == REMOVE_CONTINUE_RULE_NAME@,
    {
        REMOVE_CONTINUE_RULE_NAME
    }

    /// The properties that differ from the defaults: none are reported.
    pub fn serialize_to_properties(&self) -> (r: RuleProperties)
        ensures
            r@.len() == 0,
    {
        Vec::new()
    }

    /// Accepts only `runtime_variable_format`, a string. The whole list is
    /// checked before anything changes.
    pub fn configure(&mut self, properties: RuleProperties) -> (r: Result<(), RuleConfigurationError>)
        ensures
            match configuration_error(properties_view(properties@), format_schema(), seq![]) {
                None => r is Ok && final(self).format() == last_string(
                    properties@,
                    runtime_variable_format_key(),
                    old(self).format(),
                ),
                Some(e) => r matches Err(x) && x.view() == e && *final(self) == *old(self),
            },
    {
        let schema = format_schema_exec();
        let required: Vec<&str> = Vec::new();
        assert(crate::rules::strs_view(required@) =~= seq![]);
        match validate_properties(&properties, &schema, &required) {
            Err(e) => Err(e),
            Ok(()) => {
                let current = self.runtime_variable_format.clone();
                proof { reveal_strlit("runtime_variable_format"); }
                assert("runtime_variable_format"@ =~= runtime_variable_format_key());
                self.runtime_variable_format = string_property(&properties, "runtime_variable_format", current);
                Ok(())
            },
        }
    }

    /// Rewrites every loop of the block. Fails, changing nothing, when the
    /// format has no `{name}`.
    pub fn process(&self, block: &mut Block, context: &Context) -> (r: Result<(), String>)
        ensures
            r is Ok <==> has_name_placeholder(self.format()),
            r is Ok ==> final(block).view() == walk_block::<Processor>(
                flag_names(self.format(), context.original_code@, names_block(old(block).view())),
                old(block).view(),
            ),
            r is Err ==> *final(block) == *old(block),
            r matches Err(e) ==> e@ == MISSING_NAME_MESSAGE@,
    {
        let builder = match RuntimeVariableBuilder::new(
            self.runtime_variable_format.as_str(),
            context.original_code.as_slice(),
            Vec::new(),
        ) {
            Ok(b) => b,
            Err(e) => return Err(e),
        };
        let break_variable_name = match builder.build("break") {
            Ok(n) => n,
            Err(e) => return Err(e),
        };
        let continue_variable_name = match builder.build("continue") {
            Ok(n) => n,
            Err(e) => return Err(e),
        };
        let until_variable_name = match builder.build("until") {
            Ok(n) => n,
            Err(e) => return Err(e),
        };
        let mut taken: Vec<String> = Vec::new();
        collect_block(block, &mut taken);
        let ghost t0 = strings_view(taken@);
        let continue_variable_name = fresh(continue_variable_name, &taken);
        let ghost cv = continue_variable_name@;
        taken.push(continue_variable_name.clone());
        assert(strings_view(taken@) =~= t0.push(cv));
        let break_variable_name = fresh(break_variable_name, &taken);
        let ghost bv = break_variable_name@;
        taken.push(break_variable_name.clone());
        assert(strings_view(taken@) =~= t0.push(cv).push(bv));
        let until_variable_name = fresh(until_variable_name, &taken);
        let processor = Processor { break_variable_name, continue_variable_name, until_variable_name };
        let rewritten = visit_block(&processor, block);
        *block = rewritten;
        Ok(())
    }
}

impl Default for RemoveContinue {
    fn default() -> (r: Self)
        ensures
            r.format() == "_DARKLUA_REMOVE_CONTINUE_{name}{hash}"@,
    {
        Self::new()
    }
}

} // verus!
