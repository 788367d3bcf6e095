//! Continue elimination keeps what a loop body does.
//!
//! One pass over a body runs its statements in order, through `if` and `do`
//! (and single-pass `repeat ... until true`), and ends normally or with a
//! `break`, a `continue` or a `return`. Conditions are decided by an arbitrary
//! function, except the tests of the rewrite's flag, which read the flag. Every
//! other statement is observable. Rewriting the body keeps the observable
//! statements, in order, and what the loop does next: go on, exit or return.
use vstd::prelude::*;
use crate::nodes::{SBlock, SBranch, SExpression, SLast, SStatement, UnaryOperator};
use crate::remove_continue::{
    break_if, capped, false_local, flag_assign, flag_statements, flag_test, jump_count, loop_body,
    mark_completion, retarget, retarget_statement, single_pass, statement_jump_count, statements_jump_count,
    branches_jump_count,
};
use crate::visit::empty_block;

verus! {

pub enum Outcome {
    Normal,
    Break,
    Continue,
    Return,
}

/// One pass: the observable statements run, how the pass ends, and the flag after it.
pub struct Pass {
    pub trace: Seq<SStatement>,
    pub outcome: Outcome,
    pub flag: bool,
}

pub open spec fn not_flag(flag: Seq<char>) -> SExpression {
    SExpression::Unary { operator: UnaryOperator::Not, operand: Box::new(SExpression::Identifier(flag)) }
}

pub open spec fn holds(c: SExpression, truth: spec_fn(SExpression) -> bool, flag: Seq<char>, value: bool) -> bool {
    if c == SExpression::Identifier(flag) {
        value
    } else if c == not_flag(flag) {
        !value
    } else {
        truth(c)
    }
}

pub open spec fn normal(value: bool) -> Pass {
    Pass { trace: seq![], outcome: Outcome::Normal, flag: value }
}

pub open spec fn run_block(b: SBlock, truth: spec_fn(SExpression) -> bool, flag: Seq<char>, value: bool) -> Pass
    decreases b, 0nat, 0nat,
{
    let p = run_from(b.statements, 0, truth, flag, value);
    if !(p.outcome is Normal) {
        p
    } else {
        match b.last_statement {
            Some(SLast::Break) => Pass { trace: p.trace, outcome: Outcome::Break, flag: p.flag },
            Some(SLast::Continue) => Pass { trace: p.trace, outcome: Outcome::Continue, flag: p.flag },
            Some(SLast::Return(_)) => Pass { trace: p.trace, outcome: Outcome::Return, flag: p.flag },
            None => p,
        }
    }
}

pub open spec fn run_from(s: Seq<SStatement>, i: int, truth: spec_fn(SExpression) -> bool, flag: Seq<char>, value: bool) -> Pass
    decreases s, 0nat, s.len() - i,
{
    if i >= s.len() || i < 0 {
        normal(value)
    } else {
        let p = run_statement(s[i], truth, flag, value);
        if !(p.outcome is Normal) {
            p
        } else {
            let q = run_from(s, i + 1, truth, flag, p.flag);
            Pass { trace: p.trace + q.trace, outcome: q.outcome, flag: q.flag }
        }
    }
}

pub open spec fn run_branches(s: SStatement, j: int, truth: spec_fn(SExpression) -> bool, flag: Seq<char>, value: bool) -> Pass
    decreases s, 1nat, (if s is If { s->If_branches.len() } else { 0 }) - j,
{
    match s {
        SStatement::If { branches, else_block } => if j >= branches.len() || j < 0 {
            match else_block {
                Some(e) => run_block(e, truth, flag, value),
                None => normal(value),
            }
        } else if holds(branches[j].condition, truth, flag, value) {
            run_block(branches[j].block, truth, flag, value)
        } else {
            run_branches(s, j + 1, truth, flag, value)
        },
        _ => normal(value),
    }
}

pub open spec fn run_statement(s: SStatement, truth: spec_fn(SExpression) -> bool, flag: Seq<char>, value: bool) -> Pass
    decreases s, 2nat, 0nat,
{
    if s == flag_assign(flag) {
        normal(true)
    } else if s == false_local(flag) {
        normal(false)
    } else {
        match s {
            SStatement::If { .. } => run_branches(s, 0, truth, flag, value),
            SStatement::Do(b) => run_block(b, truth, flag, value),
            SStatement::Repeat { block, condition: SExpression::True } => {
                let p = run_block(block, truth, flag, value);
                if p.outcome is Return { p } else { Pass { trace: p.trace, outcome: Outcome::Normal, flag: p.flag } }
            },
            _ => Pass { trace: seq![s], outcome: Outcome::Normal, flag: value },
        }
    }
}

/// Whether the flag is neither set, reset nor tested anywhere one pass reaches.
pub open spec fn fresh_block(b: SBlock, flag: Seq<char>) -> bool
    decreases b, 0nat,
{
    forall|i: int| 0 <= i < b.statements.len() ==> fresh_statement(#[trigger] b.statements[i], flag)
}

pub open spec fn fresh_statement(s: SStatement, flag: Seq<char>) -> bool
    decreases s, 1nat,
{
    s != flag_assign(flag) && s != false_local(flag) && match s {
        SStatement::If { branches, else_block } => (forall|j: int|
            0 <= j < branches.len() ==> (#[trigger] branches[j]).condition != SExpression::Identifier(flag)
                && branches[j].condition != not_flag(flag) && fresh_block(branches[j].block, flag)) && match else_block {
            Some(e) => fresh_block(e, flag),
            None => true,
        },
        SStatement::Do(b) => fresh_block(b, flag),
        SStatement::Repeat { block, condition: SExpression::True } => fresh_block(block, flag),
        _ => true,
    }
}

// ----- sequencing -----

proof fn lemma_run_shift(
    s1: Seq<SStatement>,
    s2: Seq<SStatement>,
    k: int,
    t: spec_fn(SExpression) -> bool,
    f: Seq<char>,
    v: bool,
)
    requires
        0 <= k <= s2.len(),
    ensures
        run_from(s1 + s2, s1.len() + k, t, f, v) == run_from(s2, k, t, f, v),
    decreases s2.len() - k,
{
    if k < s2.len() {
        assert((s1 + s2)[s1.len() + k] == s2[k]);
        let p = run_statement(s2[k], t, f, v);
        lemma_run_shift(s1, s2, k + 1, t, f, p.flag);
    }
}

proof fn lemma_run_concat(
    s1: Seq<SStatement>,
    s2: Seq<SStatement>,
    i: int,
    t: spec_fn(SExpression) -> bool,
    f: Seq<char>,
    v: bool,
)
    requires
        0 <= i <= s1.len(),
    ensures
        run_from(s1 + s2, i, t, f, v) == ({
            let p = run_from(s1, i, t, f, v);
            if p.outcome is Normal {
                let q = run_from(s2, 0, t, f, p.flag);
                Pass { trace: p.trace + q.trace, outcome: q.outcome, flag: q.flag }
            } else {
                p
            }
        }),
    decreases s1.len() - i,
{
    if i == s1.len() {
        lemma_run_shift(s1, s2, 0, t, f, v);
        let q = run_from(s2, 0, t, f, v);
        assert(seq![] + q.trace =~= q.trace);
    } else {
        assert((s1 + s2)[i] == s1[i]);
        let p = run_statement(s1[i], t, f, v);
        if p.outcome is Normal {
            lemma_run_concat(s1, s2, i + 1, t, f, p.flag);
            let r = run_from(s1, i + 1, t, f, p.flag);
            if r.outcome is Normal {
                let q = run_from(s2, 0, t, f, r.flag);
                assert(p.trace + (r.trace + q.trace) =~= (p.trace + r.trace) + q.trace);
            }
        }
    }
}

// ----- a fresh flag never changes -----

proof fn lemma_fresh_block(b: SBlock, t: spec_fn(SExpression) -> bool, f: Seq<char>, v: bool)
    requires
        fresh_block(b, f),
    ensures
        run_block(b, t, f, v).flag == v,
    decreases b, 0nat, 0nat,
{
    lemma_fresh_from(b.statements, 0, t, f, v);
}

proof fn lemma_fresh_from(s: Seq<SStatement>, i: int, t: spec_fn(SExpression) -> bool, f: Seq<char>, v: bool)
    requires
        forall|k: int| 0 <= k < s.len() ==> fresh_statement(#[trigger] s[k], f),
    ensures
        run_from(s, i, t, f, v).flag == v,
    decreases s, 0nat, s.len() - i,
{
    if 0 <= i < s.len() {
        lemma_fresh_statement(s[i], t, f, v);
        lemma_fresh_from(s, i + 1, t, f, v);
    }
}

proof fn lemma_fresh_branches(s: SStatement, j: int, t: spec_fn(SExpression) -> bool, f: Seq<char>, v: bool)
    requires
        fresh_statement(s, f),
        s is If,
    ensures
        run_branches(s, j, t, f, v).flag == v,
    decreases s, 1nat, s->If_branches.len() - j,
{
    let branches = s->If_branches;
    if j >= branches.len() || j < 0 {
        match s->If_else_block {
            Some(e) => lemma_fresh_block(e, t, f, v),
            None => {},
        }
    } else if holds(branches[j].condition, t, f, v) {
        lemma_fresh_block(branches[j].block, t, f, v);
    } else {
        lemma_fresh_branches(s, j + 1, t, f, v);
    }
}

proof fn lemma_fresh_statement(s: SStatement, t: spec_fn(SExpression) -> bool, f: Seq<char>, v: bool)
    requires
        fresh_statement(s, f),
    ensures
        run_statement(s, t, f, v).flag == v,
    decreases s, 2nat, 0nat,
{
    match s {
        SStatement::If { .. } => lemma_fresh_branches(s, 0, t, f, v),
        SStatement::Do(b) => lemma_fresh_block(b, t, f, v),
        SStatement::Repeat { block, condition: SExpression::True } => lemma_fresh_block(block, t, f, v),
        _ => {},
    }
}

// ----- retargeted jumps -----

/// What a retargeted body's pass is, given the original's: jumps become
/// `break`, and the flag is set where it marks the jump's kind.
pub open spec fn jumped(o: Pass, flag: Option<Seq<char>>, on_continue: bool) -> Pass {
    match o.outcome {
        Outcome::Continue => Pass {
            trace: o.trace,
            outcome: Outcome::Break,
            flag: if flag is Some && on_continue { true } else { o.flag },
        },
        Outcome::Break => Pass {
            trace: o.trace,
            outcome: Outcome::Break,
            flag: if flag is Some && !on_continue { true } else { o.flag },
        },
        _ => o,
    }
}

pub open spec fn flag_ok(flag: Option<Seq<char>>, f: Seq<char>) -> bool {
    flag is None || flag == Some(f)
}

proof fn lemma_flag_statements_run(
    flag: Option<Seq<char>>,
    on_continue: bool,
    is_continue: bool,
    t: spec_fn(SExpression) -> bool,
    f: Seq<char>,
    v: bool,
)
    requires
        flag_ok(flag, f),
    ensures
        run_from(flag_statements(flag, on_continue, is_continue), 0, t, f, v) == normal(
            if flag is Some && on_continue == is_continue { true } else { v },
        ),
{
    let e = flag_statements(flag, on_continue, is_continue);
    if flag is Some && on_continue == is_continue {
        assert(e == seq![flag_assign(f)]);
        assert(run_statement(e[0], t, f, v) == normal(true));
        assert(run_from(e, 1, t, f, true) == normal(true));
        assert(seq![] + seq![] =~= Seq::<SStatement>::empty());
    } else {
        assert(e.len() == 0);
    }
}

proof fn lemma_retarget_block(
    b: SBlock,
    flag: Option<Seq<char>>,
    on_continue: bool,
    t: spec_fn(SExpression) -> bool,
    f: Seq<char>,
    v: bool,
)
    requires
        fresh_block(b, f),
        flag_ok(flag, f),
    ensures
        run_block(retarget(b, flag, on_continue), t, f, v) == jumped(run_block(b, t, f, v), flag, on_continue),
    decreases b, 1nat, 0nat,
{
    let m = Seq::new(
        b.statements.len(),
        |i: int|
            if 0 <= i < b.statements.len() {
                retarget_statement(b.statements[i], flag, on_continue)
            } else {
                SStatement::Do(empty_block())
            },
    );
    let r = retarget(b, flag, on_continue);
    lemma_retarget_from(b, m, 0, flag, on_continue, t, f, v);
    let p = run_from(b.statements, 0, t, f, v);
    match b.last_statement {
        Some(SLast::Continue) => {
            assert(r.statements == m + flag_statements(flag, on_continue, true));
            assert(r.last_statement == Some(SLast::Break));
            lemma_run_concat(m, flag_statements(flag, on_continue, true), 0, t, f, v);
            if p.outcome is Normal {
                lemma_flag_statements_run(flag, on_continue, true, t, f, p.flag);
                assert(p.trace + seq![] =~= p.trace);
            }
        },
        Some(SLast::Break) => {
            assert(r.statements == m + flag_statements(flag, on_continue, false));
            assert(r.last_statement == Some(SLast::Break));
            lemma_run_concat(m, flag_statements(flag, on_continue, false), 0, t, f, v);
            if p.outcome is Normal {
                lemma_flag_statements_run(flag, on_continue, false, t, f, p.flag);
                assert(p.trace + seq![] =~= p.trace);
            }
        },
        _ => {
            assert(r.statements == m);
        },
    }
}

proof fn lemma_retarget_from(
    b: SBlock,
    m: Seq<SStatement>,
    i: int,
    flag: Option<Seq<char>>,
    on_continue: bool,
    t: spec_fn(SExpression) -> bool,
    f: Seq<char>,
    v: bool,
)
    requires
        fresh_block(b, f),
        flag_ok(flag, f),
        0 <= i <= b.statements.len(),
        m.len() == b.statements.len(),
        forall|k: int| 0 <= k < m.len() ==> #[trigger] m[k] == retarget_statement(b.statements[k], flag, on_continue),
    ensures
        run_from(m, i, t, f, v) == jumped(run_from(b.statements, i, t, f, v), flag, on_continue),
    decreases b, 0nat, b.statements.len() - i,
{
    if i < b.statements.len() {
        let st = b.statements[i];
        assert(fresh_statement(st, f));
        lemma_retarget_statement(st, flag, on_continue, t, f, v);
        let p = run_statement(st, t, f, v);
        if p.outcome is Normal {
            lemma_retarget_from(b, m, i + 1, flag, on_continue, t, f, p.flag);
        }
    }
}

proof fn lemma_retarget_branches(
    s: SStatement,
    j: int,
    flag: Option<Seq<char>>,
    on_continue: bool,
    t: spec_fn(SExpression) -> bool,
    f: Seq<char>,
    v: bool,
)
    requires
        fresh_statement(s, f),
        flag_ok(flag, f),
        s is If,
    ensures
        run_branches(retarget_statement(s, flag, on_continue), j, t, f, v) == jumped(run_branches(s, j, t, f, v), flag, on_continue),
    decreases s, 1nat, s->If_branches.len() - j,
{
    let r = retarget_statement(s, flag, on_continue);
    let branches = s->If_branches;
    assert(r->If_branches.len() == branches.len());
    if j >= branches.len() || j < 0 {
        match s->If_else_block {
            Some(e) => lemma_retarget_block(e, flag, on_continue, t, f, v),
            None => {},
        }
    } else {
        assert(r->If_branches[j].condition == branches[j].condition);
        if holds(branches[j].condition, t, f, v) {
            lemma_retarget_block(branches[j].block, flag, on_continue, t, f, v);
        } else {
            lemma_retarget_branches(s, j + 1, flag, on_continue, t, f, v);
        }
    }
}

proof fn lemma_retarget_statement(
    s: SStatement,
    flag: Option<Seq<char>>,
    on_continue: bool,
    t: spec_fn(SExpression) -> bool,
    f: Seq<char>,
    v: bool,
)
    requires
        fresh_statement(s, f),
        flag_ok(flag, f),
    ensures
        run_statement(retarget_statement(s, flag, on_continue), t, f, v) == jumped(run_statement(s, t, f, v), flag, on_continue),
    decreases s, 2nat, 0nat,
{
    let r = retarget_statement(s, flag, on_continue);
    match s {
        SStatement::If { .. } => {
            assert(r != flag_assign(f) && r != false_local(f));
            lemma_retarget_branches(s, 0, flag, on_continue, t, f, v);
        },
        SStatement::Do(b) => {
            assert(r != flag_assign(f) && r != false_local(f));
            lemma_retarget_block(b, flag, on_continue, t, f, v);
        },
        _ => {
            assert(r == s);
        },
    }
}

// ----- a body without reachable `break` never exits by one -----

proof fn lemma_statements_zero_each(s: Seq<SStatement>, continues: bool)
    requires
        statements_jump_count(s, continues) == 0,
    ensures
        forall|i: int| 0 <= i < s.len() ==> statement_jump_count(#[trigger] s[i], continues) == 0,
    decreases s.len(),
{
    if s.len() > 0 {
        lemma_statements_zero_each(s.drop_last(), continues);
        assert forall|i: int| 0 <= i < s.len() implies statement_jump_count(#[trigger] s[i], continues) == 0 by {
            if i < s.len() - 1 {
                assert(s[i] == s.drop_last()[i]);
            }
        }
    }
}

proof fn lemma_branches_zero_each(s: Seq<SBranch>, continues: bool)
    requires
        branches_jump_count(s, continues) == 0,
    ensures
        forall|i: int| 0 <= i < s.len() ==> jump_count((#[trigger] s[i]).block, continues) == 0,
    decreases s.len(),
{
    if s.len() > 0 {
        lemma_branches_zero_each(s.drop_last(), continues);
        assert forall|i: int| 0 <= i < s.len() implies jump_count((#[trigger] s[i]).block, continues) == 0 by {
            if i < s.len() - 1 {
                assert(s[i] == s.drop_last()[i]);
            }
        }
    }
}

proof fn lemma_no_break_block(b: SBlock, t: spec_fn(SExpression) -> bool, f: Seq<char>, v: bool)
    requires
        jump_count(b, false) == 0,
    ensures
        !(run_block(b, t, f, v).outcome is Break),
    decreases b, 1nat, 0nat,
{
    lemma_statements_zero_each(b.statements, false);
    lemma_no_break_from(b, 0, t, f, v);
}

proof fn lemma_no_break_from(b: SBlock, i: int, t: spec_fn(SExpression) -> bool, f: Seq<char>, v: bool)
    requires
        forall|k: int| 0 <= k < b.statements.len() ==> statement_jump_count(#[trigger] b.statements[k], false) == 0,
        0 <= i,
    ensures
        !(run_from(b.statements, i, t, f, v).outcome is Break),
    decreases b, 0nat, b.statements.len() - i,
{
    if i < b.statements.len() {
        lemma_no_break_statement(b.statements[i], t, f, v);
        let p = run_statement(b.statements[i], t, f, v);
        if p.outcome is Normal {
            lemma_no_break_from(b, i + 1, t, f, v);
            lemma_no_break_from(b, i + 1, t, f, p.flag);
        }
    }
}

proof fn lemma_no_break_branches(s: SStatement, j: int, t: spec_fn(SExpression) -> bool, f: Seq<char>, v: bool)
    requires
        statement_jump_count(s, false) == 0,
        s is If,
    ensures
        !(run_branches(s, j, t, f, v).outcome is Break),
    decreases s, 1nat, s->If_branches.len() - j,
{
    let branches = s->If_branches;
    lemma_branches_zero_each(branches, false);
    if j >= branches.len() || j < 0 {
        match s->If_else_block {
            Some(e) => lemma_no_break_block(e, t, f, v),
            None => {},
        }
    } else if holds(branches[j].condition, t, f, v) {
        lemma_no_break_block(branches[j].block, t, f, v);
    } else {
        lemma_no_break_branches(s, j + 1, t, f, v);
    }
}

proof fn lemma_no_break_statement(s: SStatement, t: spec_fn(SExpression) -> bool, f: Seq<char>, v: bool)
    requires
        statement_jump_count(s, false) == 0,
    ensures
        !(run_statement(s, t, f, v).outcome is Break),
    decreases s, 2nat, 0nat,
{
    if s != flag_assign(f) && s != false_local(f) {
        match s {
            SStatement::If { .. } => lemma_no_break_branches(s, 0, t, f, v),
            SStatement::Do(b) => lemma_no_break_block(b, t, f, v),
            _ => {},
        }
    }
}

// ----- the law -----

/// What a loop does after a pass that ended this way: go on (0), exit (1) or
/// return (2).
pub open spec fn next_step(o: Outcome) -> int {
    match o {
        Outcome::Break => 1,
        Outcome::Return => 2,
        _ => 0,
    }
}

/// The flag that the rewrite of `b` uses, if it uses one.
pub open spec fn chosen_flag(b: SBlock, continue_name: Seq<char>, break_name: Seq<char>) -> Seq<char> {
    if capped(jump_count(b, true)) < capped(jump_count(b, false)) { continue_name } else { break_name }
}

proof fn lemma_break_if_run(f: Seq<char>, on_continue: bool, t: spec_fn(SExpression) -> bool, v: bool)
    ensures
        run_statement(break_if(flag_test(f, on_continue)), t, f, v) == (if (on_continue && !v) || (!on_continue && v) {
            Pass { trace: seq![], outcome: Outcome::Break, flag: v }
        } else {
            normal(v)
        }),
{
    let s = break_if(flag_test(f, on_continue));
    let brk = SBlock { statements: seq![], last_statement: Some(SLast::Break) };
    assert(s->If_branches[0].block == brk);
    assert(run_from(brk.statements, 0, t, f, v) == normal(v));
    assert(flag_test(f, on_continue) == if on_continue { not_flag(f) } else { SExpression::Identifier(f) });
    assert(run_branches(s, 1, t, f, v) == normal(v));
}

/// Continue elimination keeps what a loop body does: for any decision of the
/// body's conditions, one pass over the rewritten body runs the same
/// observable statements in the same order as one pass over the original, and
/// the loop then does the same thing: go on, exit or return. (The flag names
/// must not already be set, reset or tested in the body.)
pub proof fn loop_body_keeps_behaviour(
    b: SBlock,
    continue_name: Seq<char>,
    break_name: Seq<char>,
    t: spec_fn(SExpression) -> bool,
)
    requires
        fresh_block(b, continue_name),
        fresh_block(b, break_name),
    ensures
        ({
            let f = chosen_flag(b, continue_name, break_name);
            let o = run_block(b, t, f, false);
            let r = run_block(loop_body(b, continue_name, break_name), t, f, false);
            r.trace == o.trace && next_step(r.outcome) == next_step(o.outcome)
        }),
{
    let f = chosen_flag(b, continue_name, break_name);
    let o = run_block(b, t, f, false);
    let continues = capped(jump_count(b, true));
    let breaks = capped(jump_count(b, false));
    let body = loop_body(b, continue_name, break_name);
    if continues == 0 {
    } else if breaks > 0 {
        let on_continue = continues < breaks;
        let rb = retarget(b, Some(f), on_continue);
        lemma_retarget_block(b, Some(f), on_continue, t, f, false);
        lemma_fresh_block(b, t, f, false);
        let j = jumped(o, Some(f), on_continue);
        let inner = if on_continue { mark_completion(rb, f) } else { rb };
        let p = run_block(inner, t, f, false);
        if on_continue && b.last_statement is None {
            assert(rb.last_statement is None);
            let m = rb.statements;
            assert(inner.statements == m + seq![flag_assign(f)]);
            lemma_run_concat(m, seq![flag_assign(f)], 0, t, f, false);
            assert(run_from(m, 0, t, f, false) == j);
            if j.outcome is Normal {
                let q = run_from(seq![flag_assign(f)], 0, t, f, j.flag);
                lemma_flag_statements_run(Some(f), true, true, t, f, j.flag);
                assert(flag_statements(Some(f), true, true) == seq![flag_assign(f)]);
                assert(q == normal(true));
                assert(p == Pass { trace: j.trace + seq![], outcome: Outcome::Normal, flag: true });
                assert(j.trace + seq![] =~= j.trace);
            } else {
                assert(p == j);
            }
        } else {
            assert(o.outcome is Normal ==> b.last_statement is None);
        }
        let sp = single_pass(inner);
        let p1 = run_statement(sp, t, f, false);
        assert(sp != flag_assign(f) && sp != false_local(f));
        let test = break_if(flag_test(f, on_continue));
        assert(body.statements == seq![false_local(f), sp, test]);
        let st = body.statements;
        assert(run_statement(st[0], t, f, false) == normal(false));
        if p1.outcome is Normal {
            lemma_break_if_run(f, on_continue, t, p1.flag);
            let p2 = run_statement(test, t, f, p1.flag);
            assert(run_from(st, 3, t, f, p2.flag) == normal(p2.flag));
            assert(p2.trace == Seq::<SStatement>::empty());
            if p2.outcome is Normal {
                assert(run_from(st, 2, t, f, p1.flag) == Pass { trace: p2.trace + seq![], outcome: p2.outcome, flag: p2.flag });
            } else {
                assert(run_from(st, 2, t, f, p1.flag) == p2);
            }
            let q2 = run_from(st, 2, t, f, p1.flag);
            assert(q2.trace =~= seq![]);
            assert(run_from(st, 1, t, f, false) == Pass { trace: p1.trace + q2.trace, outcome: q2.outcome, flag: q2.flag });
            assert(p1.trace + q2.trace =~= p1.trace);
        } else {
            assert(run_from(st, 1, t, f, false) == p1);
        }
        let q1 = run_from(st, 1, t, f, false);
        assert(run_from(st, 0, t, f, false) == Pass { trace: seq![] + q1.trace, outcome: q1.outcome, flag: q1.flag });
        assert(seq![] + q1.trace =~= q1.trace);
    } else {
        let rb = retarget(b, None, true);
        lemma_retarget_block(b, None, true, t, f, false);
        lemma_no_break_block(b, t, f, false);
        let sp = single_pass(rb);
        assert(sp != flag_assign(f) && sp != false_local(f));
        let st = body.statements;
        assert(st == seq![sp]);
        let p1 = run_statement(sp, t, f, false);
        assert(run_from(st, 1, t, f, p1.flag) == normal(p1.flag));
        if p1.outcome is Normal {
            assert(run_from(st, 0, t, f, false) == Pass { trace: p1.trace + seq![], outcome: Outcome::Normal, flag: p1.flag });
            assert(p1.trace + seq![] =~= p1.trace);
        }
    }
}

} // verus!
