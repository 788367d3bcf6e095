//! Continue elimination reaches a fixed point in one pass.
//!
//! A tree is settled when no loop body has a `continue` that reaches it through
//! `if` and `do` statements. The rewrite's output is settled, and the rewrite
//! leaves a settled tree as it is: so a second run changes nothing.
use vstd::prelude::*;
use crate::nodes::{SBlock, SBranch, SCall, SEntry, SExpression, SLast, SStatement};
use crate::remove_continue::{
    Processor, break_if, false_local, flag_assign, flag_statements, flag_test, jump_count,
    last_count, loop_body, mark_completion, retarget, retarget_statement, single_pass, statement_jump_count,
    statements_jump_count, branches_jump_count, capped, assign_to, precede_continues, precede_statement,
    repeat_rewrite, until_body,
};
use crate::visit::{
    walk_block, walk_call, walk_entry, walk_expression, walk_expression_children, walk_expressions,
    walk_function, walk_optional_block, walk_statement,
};

verus! {

pub open spec fn settled_expressions(s: Seq<SExpression>) -> bool
    decreases s, 0nat,
{
    forall|i: int| 0 <= i < s.len() ==> settled_expression(#[trigger] s[i])
}

pub open spec fn settled_entry(e: SEntry) -> bool
    decreases e, 0nat,
{
    match e {
        SEntry::Value(v) => settled_expression(v),
        SEntry::Index { key, value } => settled_expression(key) && settled_expression(value),
        SEntry::Field { value, .. } => settled_expression(value),
    }
}

pub open spec fn settled_expression(e: SExpression) -> bool
    decreases e, 1nat,
{
    match e {
        SExpression::Unary { operand, .. } => settled_expression(*operand),
        SExpression::Binary { left, right, .. } => settled_expression(*left) && settled_expression(*right),
        SExpression::Parenthese(inner) => settled_expression(*inner),
        SExpression::Table(entries) => forall|i: int| 0 <= i < entries.len() ==> settled_entry(#[trigger] entries[i]),
        SExpression::Function(f) => settled_block(f.block),
        SExpression::Call(c) => settled_expression(*c.prefix) && settled_expressions(c.arguments),
        SExpression::Field { prefix, .. } => settled_expression(*prefix),
        SExpression::Index { prefix, index } => settled_expression(*prefix) && settled_expression(*index),
        _ => true,
    }
}

/// A loop body is settled when it is, and no `continue` reaches it.
pub open spec fn settled_body(b: SBlock) -> bool
    decreases b, 1nat,
{
    settled_block(b) && jump_count(b, true) == 0
}

pub open spec fn settled_statement(s: SStatement) -> bool
    decreases s, 0nat,
{
    match s {
        SStatement::Assign { variables, values } => settled_expressions(variables) && settled_expressions(values),
        SStatement::CompoundAssign { variable, value, .. } => settled_expression(variable) && settled_expression(value),
        SStatement::LocalAssign { values, .. } => settled_expressions(values),
        SStatement::LocalFunction { function, .. } => settled_block(function.block),
        SStatement::Function { function, .. } => settled_block(function.block),
        SStatement::Call(c) => settled_expression(*c.prefix) && settled_expressions(c.arguments),
        SStatement::If { branches, else_block } => (forall|i: int|
            0 <= i < branches.len() ==> settled_expression((#[trigger] branches[i]).condition)
                && settled_block(branches[i].block)) && match else_block {
            Some(b) => settled_block(b),
            None => true,
        },
        SStatement::While { condition, block } => settled_expression(condition) && settled_body(block),
        SStatement::Repeat { block, condition } => settled_expression(condition) && settled_body(block),
        SStatement::NumericFor { start, end, step, block, .. } => settled_expression(start) && settled_expression(end)
            && match step {
            Some(e) => settled_expression(e),
            None => true,
        } && settled_body(block),
        SStatement::GenericFor { expressions, block, .. } => settled_expressions(expressions) && settled_body(block),
        SStatement::Do(b) => settled_block(b),
    }
}

pub open spec fn settled_block(b: SBlock) -> bool
    decreases b, 0nat,
{
    (forall|i: int| 0 <= i < b.statements.len() ==> settled_statement(#[trigger] b.statements[i])) && match b.last_statement {
        Some(SLast::Return(v)) => settled_expressions(v),
        _ => true,
    }
}

// ----- counting lemmas -----

proof fn lemma_statements_count_concat(a: Seq<SStatement>, b: Seq<SStatement>, continues: bool)
    ensures
        statements_jump_count(a + b, continues) == statements_jump_count(a, continues) + statements_jump_count(b, continues),
    decreases b.len(),
{
    if b.len() == 0 {
        assert(a + b =~= a);
    } else {
        assert((a + b).drop_last() =~= a + b.drop_last());
        assert((a + b).last() == b.last());
        lemma_statements_count_concat(a, b.drop_last(), continues);
    }
}

proof fn lemma_statements_count_zero(s: Seq<SStatement>, continues: bool)
    requires
        forall|i: int| 0 <= i < s.len() ==> statement_jump_count(#[trigger] s[i], continues) == 0,
    ensures
        statements_jump_count(s, continues) == 0,
    decreases s.len(),
{
    if s.len() > 0 {
        assert forall|i: int| 0 <= i < s.drop_last().len() implies statement_jump_count(
            #[trigger] s.drop_last()[i],
            continues,
        ) == 0 by {
            assert(s.drop_last()[i] == s[i]);
        }
        lemma_statements_count_zero(s.drop_last(), continues);
    }
}

proof fn lemma_branches_count_zero(s: Seq<SBranch>, continues: bool)
    requires
        forall|i: int| 0 <= i < s.len() ==> jump_count((#[trigger] s[i]).block, continues) == 0,
    ensures
        branches_jump_count(s, continues) == 0,
    decreases s.len(),
{
    if s.len() > 0 {
        assert forall|i: int| 0 <= i < s.drop_last().len() implies jump_count(
            (#[trigger] s.drop_last()[i]).block,
            continues,
        ) == 0 by {
            assert(s.drop_last()[i] == s[i]);
        }
        lemma_branches_count_zero(s.drop_last(), continues);
    }
}

proof fn lemma_flags_count_zero(flag: Option<Seq<char>>, on_continue: bool, is_continue: bool)
    ensures
        statements_jump_count(flag_statements(flag, on_continue, is_continue), true) == 0,
{
    let f = flag_statements(flag, on_continue, is_continue);
    assert forall|i: int| 0 <= i < f.len() implies statement_jump_count(#[trigger] f[i], true) == 0 by {}
    lemma_statements_count_zero(f, true);
}

/// After retargeting, no `continue` is left.
proof fn lemma_retarget_no_continue(b: SBlock, flag: Option<Seq<char>>, on_continue: bool)
    ensures
        jump_count(retarget(b, flag, on_continue), true) == 0,
    decreases b, 1nat,
{
    let r = retarget(b, flag, on_continue);
    let mapped = Seq::new(
        b.statements.len(),
        |i: int|
            if 0 <= i < b.statements.len() {
                retarget_statement(b.statements[i], flag, on_continue)
            } else {
                SStatement::Do(crate::visit::empty_block())
            },
    );
    assert forall|i: int| 0 <= i < mapped.len() implies statement_jump_count(#[trigger] mapped[i], true) == 0 by {
        lemma_retarget_statement_no_continue(b.statements[i], flag, on_continue);
    }
    lemma_statements_count_zero(mapped, true);
    match b.last_statement {
        Some(SLast::Continue) => {
            lemma_flags_count_zero(flag, on_continue, true);
            lemma_statements_count_concat(mapped, flag_statements(flag, on_continue, true), true);
            assert(r.statements == mapped + flag_statements(flag, on_continue, true));
            assert(last_count(r.last_statement, true) == 0);
        },
        Some(SLast::Break) => {
            lemma_flags_count_zero(flag, on_continue, false);
            lemma_statements_count_concat(mapped, flag_statements(flag, on_continue, false), true);
            assert(r.statements == mapped + flag_statements(flag, on_continue, false));
            assert(last_count(r.last_statement, true) == 0);
        },
        _ => {
            assert(r.statements == mapped);
        },
    }
}

proof fn lemma_retarget_statement_no_continue(s: SStatement, flag: Option<Seq<char>>, on_continue: bool)
    ensures
        statement_jump_count(retarget_statement(s, flag, on_continue), true) == 0,
    decreases s, 0nat,
{
    match s {
        SStatement::If { branches, else_block } => {
            let r = retarget_statement(s, flag, on_continue);
            let nb = r->If_branches;
            assert forall|i: int| 0 <= i < nb.len() implies jump_count((#[trigger] nb[i]).block, true) == 0 by {
                lemma_retarget_no_continue(branches[i].block, flag, on_continue);
            }
            lemma_branches_count_zero(nb, true);
            match else_block {
                Some(e) => lemma_retarget_no_continue(e, flag, on_continue),
                None => {},
            }
        },
        SStatement::Do(b) => lemma_retarget_no_continue(b, flag, on_continue),
        _ => {},
    }
}

// ----- settledness of the rewrite's pieces -----

proof fn lemma_retarget_settled(b: SBlock, flag: Option<Seq<char>>, on_continue: bool)
    requires
        settled_block(b),
    ensures
        settled_block(retarget(b, flag, on_continue)),
    decreases b, 1nat,
{
    let r = retarget(b, flag, on_continue);
    let n = b.statements.len();
    assert forall|i: int| 0 <= i < r.statements.len() implies settled_statement(#[trigger] r.statements[i]) by {
        if i < n {
            assert(settled_statement(b.statements[i]));
            lemma_retarget_statement_settled(b.statements[i], flag, on_continue);
        } else {
            match flag {
                Some(name) => {
                    assert(r.statements[i] == flag_assign(name));
                    assert(settled_expressions(flag_assign(name)->Assign_variables));
                    assert(settled_expressions(flag_assign(name)->Assign_values));
                },
                None => {},
            }
        }
    }
}

proof fn lemma_retarget_statement_settled(s: SStatement, flag: Option<Seq<char>>, on_continue: bool)
    requires
        settled_statement(s),
    ensures
        settled_statement(retarget_statement(s, flag, on_continue)),
    decreases s, 0nat,
{
    match s {
        SStatement::If { branches, else_block } => {
            let r = retarget_statement(s, flag, on_continue);
            let nb = r->If_branches;
            assert forall|i: int| 0 <= i < nb.len() implies settled_expression((#[trigger] nb[i]).condition)
                && settled_block(nb[i].block) by {
                assert(settled_expression(branches[i].condition) && settled_block(branches[i].block));
                lemma_retarget_settled(branches[i].block, flag, on_continue);
            }
            match else_block {
                Some(e) => lemma_retarget_settled(e, flag, on_continue),
                None => {},
            }
        },
        SStatement::Do(b) => lemma_retarget_settled(b, flag, on_continue),
        _ => {},
    }
}

proof fn lemma_single_pass_settled(body: SBlock)
    requires
        settled_block(body),
        jump_count(body, true) == 0,
    ensures
        settled_statement(single_pass(body)),
        statement_jump_count(single_pass(body), true) == 0,
{
}

/// The rewritten body of a settled loop body is settled.
proof fn lemma_loop_body_settled(b: SBlock, continue_name: Seq<char>, break_name: Seq<char>)
    requires
        settled_block(b),
    ensures
        settled_body(loop_body(b, continue_name, break_name)),
{
    let continues = capped(jump_count(b, true));
    let breaks = capped(jump_count(b, false));
    let r = loop_body(b, continue_name, break_name);
    if continues == 0 {
        assert(jump_count(b, true) == 0);
    } else if breaks > 0 {
        let on_continue = continues < breaks;
        let name = if on_continue { continue_name } else { break_name };
        let retargeted = retarget(b, Some(name), on_continue);
        lemma_retarget_settled(b, Some(name), on_continue);
        lemma_retarget_no_continue(b, Some(name), on_continue);
        let inner = if on_continue { mark_completion(retargeted, name) } else { retargeted };
        if on_continue && retargeted.last_statement is None {
            let a = flag_assign(name);
            assert(settled_expressions(a->Assign_variables));
            assert(settled_expressions(a->Assign_values));
            assert(inner.statements == retargeted.statements + seq![a]);
            lemma_statements_count_concat(retargeted.statements, seq![a], true);
            assert forall|i: int| 0 <= i < seq![a].len() implies statement_jump_count(#[trigger] seq![a][i], true) == 0 by {}
            lemma_statements_count_zero(seq![a], true);
            assert forall|i: int| 0 <= i < inner.statements.len() implies settled_statement(#[trigger] inner.statements[i]) by {
                if i < retargeted.statements.len() {
                    assert(inner.statements[i] == retargeted.statements[i]);
                }
            }
        }
        lemma_single_pass_settled(inner);
        let handler = break_if(flag_test(name, on_continue));
        let brk = SBlock { statements: seq![], last_statement: Some(SLast::Break) };
        assert(handler->If_branches[0].block == brk);
        assert(statements_jump_count(brk.statements, true) == 0);
        assert(jump_count(brk, true) == 0);
        assert forall|i: int| 0 <= i < handler->If_branches.len() implies jump_count(
            (#[trigger] handler->If_branches[i]).block,
            true,
        ) == 0 by {}
        lemma_branches_count_zero(handler->If_branches, true);
        assert(statement_jump_count(handler, true) == 0);
        assert(settled_expressions(false_local(name)->LocalAssign_values));
        assert(settled_statement(false_local(name)));
        assert(settled_expression(SExpression::Identifier(name)));
        assert(settled_expression(flag_test(name, on_continue)));
        assert(settled_block(brk));
        assert(settled_statement(handler));
        let st = r.statements;
        assert(st == seq![false_local(name), single_pass(inner), handler]);
        assert forall|i: int| 0 <= i < st.len() implies statement_jump_count(#[trigger] st[i], true) == 0 by {}
        lemma_statements_count_zero(st, true);
        assert forall|i: int| 0 <= i < st.len() implies settled_statement(#[trigger] st[i]) by {}
    } else {
        let inner = retarget(b, None, true);
        lemma_retarget_settled(b, None, true);
        lemma_retarget_no_continue(b, None, true);
        lemma_single_pass_settled(inner);
        let st = r.statements;
        assert forall|i: int| 0 <= i < st.len() implies statement_jump_count(#[trigger] st[i], true) == 0 by {}
        lemma_statements_count_zero(st, true);
        assert forall|i: int| 0 <= i < st.len() implies settled_statement(#[trigger] st[i]) by {}
    }
}

// ----- the walk settles, and leaves settled trees alone -----

proof fn lemma_walk_expressions(c: (Seq<char>, Seq<char>, Seq<char>), s: Seq<SExpression>)
    ensures
        settled_expressions(walk_expressions::<Processor>(c, s)),
        settled_expressions(s) ==> walk_expressions::<Processor>(c, s) == s,
    decreases s, 0nat,
{
    let w = walk_expressions::<Processor>(c, s);
    assert forall|i: int| 0 <= i < w.len() implies settled_expression(#[trigger] w[i]) by {
        lemma_walk_expression(c, s[i]);
    }
    if settled_expressions(s) {
        assert forall|i: int| 0 <= i < w.len() implies #[trigger] w[i] == s[i] by {
            lemma_walk_expression(c, s[i]);
        }
        assert(w =~= s);
    }
}

proof fn lemma_walk_entry(c: (Seq<char>, Seq<char>, Seq<char>), e: SEntry)
    ensures
        settled_entry(walk_entry::<Processor>(c, e)),
        settled_entry(e) ==> walk_entry::<Processor>(c, e) == e,
    decreases e, 0nat,
{
    match e {
        SEntry::Value(v) => lemma_walk_expression(c, v),
        SEntry::Index { key, value } => {
            lemma_walk_expression(c, key);
            lemma_walk_expression(c, value);
        },
        SEntry::Field { value, .. } => lemma_walk_expression(c, value),
    }
}

proof fn lemma_walk_call(c: (Seq<char>, Seq<char>, Seq<char>), call: SCall)
    ensures
        settled_expression(*walk_call::<Processor>(c, call).prefix),
        settled_expressions(walk_call::<Processor>(c, call).arguments),
        settled_expression(*call.prefix) && settled_expressions(call.arguments) ==> walk_call::<Processor>(c, call) == call,
    decreases call, 0nat,
{
    lemma_walk_expression(c, *call.prefix);
    lemma_walk_expressions(c, call.arguments);
}

proof fn lemma_walk_expression(c: (Seq<char>, Seq<char>, Seq<char>), e: SExpression)
    ensures
        settled_expression(walk_expression::<Processor>(c, e)),
        settled_expression(e) ==> walk_expression::<Processor>(c, e) == e,
    decreases e, 1nat,
{
    let w = walk_expression::<Processor>(c, e);
    assert(w == walk_expression_children::<Processor>(c, e));
    match e {
        SExpression::Unary { operand, .. } => lemma_walk_expression(c, *operand),
        SExpression::Binary { left, right, .. } => {
            lemma_walk_expression(c, *left);
            lemma_walk_expression(c, *right);
        },
        SExpression::Parenthese(inner) => lemma_walk_expression(c, *inner),
        SExpression::Table(entries) => {
            let we = w->Table_0;
            assert forall|i: int| 0 <= i < we.len() implies settled_entry(#[trigger] we[i]) by {
                lemma_walk_entry(c, entries[i]);
            }
            if settled_expression(e) {
                assert forall|i: int| 0 <= i < we.len() implies #[trigger] we[i] == entries[i] by {
                    lemma_walk_entry(c, entries[i]);
                }
                assert(we =~= entries);
            }
        },
        SExpression::Function(f) => {
            lemma_walk_block(c, f.block);
            if settled_expression(e) {
                assert(walk_function::<Processor>(c, *f) == *f);
            }
        },
        SExpression::Call(call) => lemma_walk_call(c, call),
        SExpression::Field { prefix, .. } => lemma_walk_expression(c, *prefix),
        SExpression::Index { prefix, index } => {
            lemma_walk_expression(c, *prefix);
            lemma_walk_expression(c, *index);
        },
        _ => {},
    }
}

proof fn lemma_walk_block(c: (Seq<char>, Seq<char>, Seq<char>), b: SBlock)
    ensures
        settled_block(walk_block::<Processor>(c, b)),
        settled_block(b) ==> walk_block::<Processor>(c, b) == b,
    decreases b, 0nat,
{
    let w = walk_block::<Processor>(c, b);
    let ws = w.statements;
    assert forall|i: int| 0 <= i < ws.len() implies settled_statement(#[trigger] ws[i]) by {
        lemma_walk_statement(c, b.statements[i]);
    }
    match b.last_statement {
        Some(SLast::Return(v)) => lemma_walk_expressions(c, v),
        _ => {},
    }
    if settled_block(b) {
        assert forall|i: int| 0 <= i < ws.len() implies #[trigger] ws[i] == b.statements[i] by {
            lemma_walk_statement(c, b.statements[i]);
        }
        assert(ws =~= b.statements);
    }
}

proof fn lemma_loop_rewrite(c: (Seq<char>, Seq<char>, Seq<char>), body: SBlock)
    ensures
        settled_body(loop_body(walk_block::<Processor>(c, body), c.0, c.1)),
        settled_body(body) ==> loop_body(walk_block::<Processor>(c, body), c.0, c.1) == body,
    decreases body, 1nat,
{
    lemma_walk_block(c, body);
    lemma_loop_body_settled(walk_block::<Processor>(c, body), c.0, c.1);
}

proof fn lemma_precede_settled(b: SBlock, a: SStatement)
    requires
        settled_block(b),
        settled_statement(a),
    ensures
        settled_block(precede_continues(b, a)),
    decreases b, 1nat,
{
    let r = precede_continues(b, a);
    let n = b.statements.len();
    assert forall|i: int| 0 <= i < r.statements.len() implies settled_statement(#[trigger] r.statements[i]) by {
        if i < n {
            assert(settled_statement(b.statements[i]));
            lemma_precede_statement_settled(b.statements[i], a);
        }
    }
}

proof fn lemma_precede_statement_settled(s: SStatement, a: SStatement)
    requires
        settled_statement(s),
        settled_statement(a),
    ensures
        settled_statement(precede_statement(s, a)),
    decreases s, 0nat,
{
    match s {
        SStatement::If { branches, else_block } => {
            let nb = precede_statement(s, a)->If_branches;
            assert forall|i: int| 0 <= i < nb.len() implies settled_expression((#[trigger] nb[i]).condition)
                && settled_block(nb[i].block) by {
                assert(settled_expression(branches[i].condition) && settled_block(branches[i].block));
                lemma_precede_settled(branches[i].block, a);
            }
            match else_block {
                Some(e) => lemma_precede_settled(e, a),
                None => {},
            }
        },
        SStatement::Do(b) => lemma_precede_settled(b, a),
        _ => {},
    }
}

/// The rewrite of a settled `repeat` body and condition is settled, and
/// leaves a loop without reachable `continue` as it is.
proof fn lemma_repeat_settled(c: (Seq<char>, Seq<char>, Seq<char>), block: SBlock, condition: SExpression)
    requires
        settled_block(block),
        settled_expression(condition),
    ensures
        settled_statement(repeat_rewrite(block, condition, c.0, c.1, c.2)),
        jump_count(block, true) == 0 ==> repeat_rewrite(block, condition, c.0, c.1, c.2)
            == (SStatement::Repeat { block, condition }),
{
    if capped(jump_count(block, true)) != 0 {
        let a = assign_to(c.2, condition);
        assert(settled_expressions(a->Assign_variables));
        assert(settled_expressions(a->Assign_values));
        lemma_precede_settled(block, a);
        let m = precede_continues(block, a);
        let ub = until_body(block, c.2, condition);
        assert forall|i: int| 0 <= i < ub.statements.len() implies settled_statement(#[trigger] ub.statements[i]) by {
            if i < m.statements.len() {
                assert(ub.statements[i] == m.statements[i]);
            }
        }
        lemma_loop_body_settled(ub, c.0, c.1);
        let lb = loop_body(ub, c.0, c.1);
        let body = repeat_rewrite(block, condition, c.0, c.1, c.2)->Repeat_block;
        let fl = false_local(c.2);
        assert(settled_expressions(fl->LocalAssign_values));
        assert(body.statements == seq![fl] + lb.statements);
        assert forall|i: int| 0 <= i < body.statements.len() implies settled_statement(#[trigger] body.statements[i]) by {
            if i > 0 {
                assert(body.statements[i] == lb.statements[i - 1]);
            }
        }
        assert(statements_jump_count(lb.statements, true) == 0);
        assert forall|i: int| 0 <= i < seq![fl].len() implies statement_jump_count(#[trigger] seq![fl][i], true) == 0 by {}
        lemma_statements_count_zero(seq![fl], true);
        lemma_statements_count_concat(seq![fl], lb.statements, true);
        assert(statements_jump_count(body.statements, true) == 0);
        assert(jump_count(body, true) == 0);
        assert(settled_block(body));
        assert(settled_expression(SExpression::Identifier(c.2)));
    } else {
        assert(jump_count(block, true) == 0);
    }
}

proof fn lemma_walk_statement(c: (Seq<char>, Seq<char>, Seq<char>), s: SStatement)
    ensures
        settled_statement(walk_statement::<Processor>(c, s)),
        settled_statement(s) ==> walk_statement::<Processor>(c, s) == s,
    decreases s, 2nat,
{
    let w = walk_statement::<Processor>(c, s);
    match s {
        SStatement::Assign { variables, values } => {
            lemma_walk_expressions(c, variables);
            lemma_walk_expressions(c, values);
        },
        SStatement::CompoundAssign { variable, value, .. } => {
            lemma_walk_expression(c, variable);
            lemma_walk_expression(c, value);
        },
        SStatement::LocalAssign { values, .. } => lemma_walk_expressions(c, values),
        SStatement::LocalFunction { function, .. } => lemma_walk_block(c, function.block),
        SStatement::Function { function, .. } => lemma_walk_block(c, function.block),
        SStatement::Call(call) => lemma_walk_call(c, call),
        SStatement::If { branches, else_block } => {
            let wb = w->If_branches;
            assert forall|i: int| 0 <= i < wb.len() implies settled_expression((#[trigger] wb[i]).condition)
                && settled_block(wb[i].block) by {
                lemma_walk_expression(c, branches[i].condition);
                lemma_walk_block(c, branches[i].block);
            }
            match else_block {
                Some(e) => lemma_walk_block(c, e),
                None => {},
            }
            if settled_statement(s) {
                assert forall|i: int| 0 <= i < wb.len() implies #[trigger] wb[i] == branches[i] by {
                    lemma_walk_expression(c, branches[i].condition);
                    lemma_walk_block(c, branches[i].block);
                }
                assert(wb =~= branches);
                assert(walk_optional_block::<Processor>(c, else_block) == else_block);
            }
        },
        SStatement::While { condition, block } => {
            lemma_walk_expression(c, condition);
            lemma_loop_rewrite(c, block);
        },
        SStatement::Repeat { block, condition } => {
            lemma_walk_expression(c, condition);
            lemma_walk_block(c, block);
            lemma_repeat_settled(c, walk_block::<Processor>(c, block), walk_expression::<Processor>(c, condition));
        },
        SStatement::NumericFor { start, end, step, block, .. } => {
            lemma_walk_expression(c, start);
            lemma_walk_expression(c, end);
            match step {
                Some(e) => lemma_walk_expression(c, e),
                None => {},
            }
            lemma_loop_rewrite(c, block);
        },
        SStatement::GenericFor { expressions, block, .. } => {
            lemma_walk_expressions(c, expressions);
            lemma_loop_rewrite(c, block);
        },
        SStatement::Do(b) => lemma_walk_block(c, b),
    }
}

/// Continue elimination is idempotent: running it on its own output, with the
/// same flag names, changes nothing.
pub proof fn remove_continue_is_idempotent(names: (Seq<char>, Seq<char>, Seq<char>), b: SBlock)
    ensures
        walk_block::<Processor>(names, walk_block::<Processor>(names, b)) == walk_block::<Processor>(names, b),
{
    lemma_walk_block(names, b);
    lemma_walk_block(names, walk_block::<Processor>(names, b));
}

/// After continue elimination no loop body holds a `continue` that reaches it
/// through `if` and `do` statements.
pub proof fn remove_continue_leaves_no_continue(names: (Seq<char>, Seq<char>, Seq<char>), b: SBlock)
    ensures
        settled_block(walk_block::<Processor>(names, b)),
{
    lemma_walk_block(names, b);
}

} // verus!
