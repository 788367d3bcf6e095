//! The names that a tree holds, and fresh names that differ from all of them.
use vstd::prelude::*;
use crate::nodes::{
    Block, Expression, FunctionCall, FunctionExpression, IfBranch, LastStatement, SBlock, SBranch,
    SEntry, SExpression, SFunction, SLast, SStatement, STyped, Statement, TableEntry, TypedIdentifier,
    typeds_view,
};
use crate::text::{chars_of, push_char, same_text};

verus! {

pub open spec fn names_typeds(s: Seq<STyped>, i: int) -> Seq<Seq<char>>
    decreases s.len() - i,
{
    if i >= s.len() || i < 0 { seq![] } else { seq![s[i].name] + names_typeds(s, i + 1) }
}

pub open spec fn names_exprs(s: Seq<SExpression>, i: int) -> Seq<Seq<char>>
    decreases s, 0nat, s.len() - i,
{
    if i >= s.len() || i < 0 { seq![] } else { names_expr(s[i]) + names_exprs(s, i + 1) }
}

pub open spec fn names_entry(e: SEntry) -> Seq<Seq<char>>
    decreases e, 0nat, 0nat,
{
    match e {
        SEntry::Value(v) => names_expr(v),
        SEntry::Index { key, value } => names_expr(key) + names_expr(value),
        SEntry::Field { value, .. } => names_expr(value),
    }
}

pub open spec fn names_entries(s: Seq<SEntry>, i: int) -> Seq<Seq<char>>
    decreases s, 0nat, s.len() - i,
{
    if i >= s.len() || i < 0 { seq![] } else { names_entry(s[i]) + names_entries(s, i + 1) }
}

pub open spec fn names_function(f: SFunction) -> Seq<Seq<char>>
    decreases f, 0nat, 0nat,
{
    names_typeds(f.parameters, 0) + names_block(f.block)
}

/// The names an expression uses as variables, in order.
pub open spec fn names_expr(e: SExpression) -> Seq<Seq<char>>
    decreases e, 1nat, 0nat,
{
    match e {
        SExpression::Identifier(s) => seq![s],
        SExpression::Unary { operand, .. } => names_expr(*operand),
        SExpression::Binary { left, right, .. } => names_expr(*left) + names_expr(*right),
        SExpression::Parenthese(inner) => names_expr(*inner),
        SExpression::Table(entries) => names_entries(entries, 0),
        SExpression::Function(f) => names_function(*f),
        SExpression::Call(c) => names_expr(*c.prefix) + names_exprs(c.arguments, 0),
        SExpression::Field { prefix, .. } => names_expr(*prefix),
        SExpression::Index { prefix, index } => names_expr(*prefix) + names_expr(*index),
        _ => seq![],
    }
}

pub open spec fn names_branches(s: Seq<SBranch>, i: int) -> Seq<Seq<char>>
    decreases s, 0nat, s.len() - i,
{
    if i >= s.len() || i < 0 {
        seq![]
    } else {
        names_expr(s[i].condition) + names_block(s[i].block) + names_branches(s, i + 1)
    }
}

/// The names a statement uses or declares, in order.
pub open spec fn names_statement(s: SStatement) -> Seq<Seq<char>>
    decreases s, 1nat, 0nat,
{
    match s {
        SStatement::Assign { variables, values } => names_exprs(variables, 0) + names_exprs(values, 0),
        SStatement::CompoundAssign { variable, value, .. } => names_expr(variable) + names_expr(value),
        SStatement::LocalAssign { variables, values } => names_typeds(variables, 0) + names_exprs(values, 0),
        SStatement::LocalFunction { name, function } => seq![name] + names_function(function),
        SStatement::Function { name, function } => seq![name] + names_function(function),
        SStatement::Call(c) => names_expr(*c.prefix) + names_exprs(c.arguments, 0),
        SStatement::If { branches, else_block } => names_branches(branches, 0) + match else_block {
            Some(b) => names_block(b),
            None => seq![],
        },
        SStatement::While { condition, block } => names_expr(condition) + names_block(block),
        SStatement::Repeat { block, condition } => names_block(block) + names_expr(condition),
        SStatement::NumericFor { identifier, start, end, step, block } => seq![identifier.name] + names_expr(start)
            + names_expr(end) + match step {
            Some(e) => names_expr(e),
            None => seq![],
        } + names_block(block),
        SStatement::GenericFor { identifiers, expressions, block } => names_typeds(identifiers, 0)
            + names_exprs(expressions, 0) + names_block(block),
        SStatement::Do(b) => names_block(b),
    }
}

pub open spec fn names_statements(s: Seq<SStatement>, i: int) -> Seq<Seq<char>>
    decreases s, 0nat, s.len() - i,
{
    if i >= s.len() || i < 0 { seq![] } else { names_statement(s[i]) + names_statements(s, i + 1) }
}

/// The names a block uses or declares, in order.
pub open spec fn names_block(b: SBlock) -> Seq<Seq<char>>
    decreases b, 0nat, 0nat,
{
    names_statements(b.statements, 0) + match b.last_statement {
        Some(SLast::Return(v)) => names_exprs(v, 0),
        _ => seq![],
    }
}

pub open spec fn strings_view(v: Seq<String>) -> Seq<Seq<char>> {
    Seq::new(v.len(), |i: int| v[i]@)
}

fn push_name(out: &mut Vec<String>, s: &String)
    ensures
        strings_view(final(out)@) == strings_view(old(out)@) + seq![s@],
{
    out.push(s.clone());
    assert(strings_view(final(out)@) =~= strings_view(old(out)@) + seq![s@]);
}

pub open spec fn exprs_view(v: Seq<Expression>) -> Seq<SExpression> {
    Seq::new(v.len(), |i: int| v[i].view())
}

pub open spec fn entries_view(v: Seq<TableEntry>) -> Seq<SEntry> {
    Seq::new(v.len(), |i: int| v[i].view())
}

pub open spec fn branches_view(v: Seq<IfBranch>) -> Seq<SBranch> {
    Seq::new(v.len(), |i: int| v[i].view())
}

fn collect_typeds(v: &Vec<TypedIdentifier>, out: &mut Vec<String>)
    ensures
        strings_view(final(out)@) == strings_view(old(out)@) + names_typeds(typeds_view(v@), 0),
{
    let ghost sv = typeds_view(v@);
    let ghost start = strings_view(out@);
    let mut i: usize = 0;
    while i < v.len()
        invariant
            i <= v@.len(),
            sv == typeds_view(v@),
            strings_view(out@) + names_typeds(sv, i as int) == start + names_typeds(sv, 0),
        decreases v@.len() - i,
    {
        let ghost before = strings_view(out@);
        push_name(out, &v[i].name);
        assert(strings_view(out@) + names_typeds(sv, i + 1) =~= before + names_typeds(sv, i as int));
        i += 1;
    }
    assert(strings_view(out@) + names_typeds(sv, i as int) =~= strings_view(out@));
}

fn collect_exprs(v: &Vec<Expression>, out: &mut Vec<String>)
    ensures
        strings_view(final(out)@) == strings_view(old(out)@) + names_exprs(exprs_view(v@), 0),
    decreases v, 0nat,
{
    let ghost sv = exprs_view(v@);
    let ghost start = strings_view(out@);
    let mut i: usize = 0;
    while i < v.len()
        invariant
            i <= v@.len(),
            sv == exprs_view(v@),
            strings_view(out@) + names_exprs(sv, i as int) == start + names_exprs(sv, 0),
        decreases v@.len() - i,
    {
        assert(decreases_to!(v => v[i as int]));
        let ghost before = strings_view(out@);
        collect_expr(&v[i], out);
        assert(sv[i as int] == v@[i as int].view());
        assert(strings_view(out@) + names_exprs(sv, i + 1) =~= before + names_exprs(sv, i as int));
        i += 1;
    }
    assert(strings_view(out@) + names_exprs(sv, i as int) =~= strings_view(out@));
}

fn collect_entry(e: &TableEntry, out: &mut Vec<String>)
    ensures
        strings_view(final(out)@) == strings_view(old(out)@) + names_entry(e.view()),
    decreases e, 0nat,
{
    let ghost start = strings_view(out@);
    match e {
        TableEntry::Value(v) => collect_expr(v, out),
        TableEntry::Index { key, value } => {
            collect_expr(key, out);
            collect_expr(value, out);
            assert(strings_view(out@) =~= start + names_entry(e.view()));
        },
        TableEntry::Field { value, .. } => collect_expr(value, out),
    }
}

fn collect_entries(v: &Vec<TableEntry>, out: &mut Vec<String>)
    ensures
        strings_view(final(out)@) == strings_view(old(out)@) + names_entries(entries_view(v@), 0),
    decreases v, 0nat,
{
    let ghost sv = entries_view(v@);
    let ghost start = strings_view(out@);
    let mut i: usize = 0;
    while i < v.len()
        invariant
            i <= v@.len(),
            sv == entries_view(v@),
            strings_view(out@) + names_entries(sv, i as int) == start + names_entries(sv, 0),
        decreases v@.len() - i,
    {
        assert(decreases_to!(v => v[i as int]));
        let ghost before = strings_view(out@);
        collect_entry(&v[i], out);
        assert(sv[i as int] == v@[i as int].view());
        assert(strings_view(out@) + names_entries(sv, i + 1) =~= before + names_entries(sv, i as int));
        i += 1;
    }
    assert(strings_view(out@) + names_entries(sv, i as int) =~= strings_view(out@));
}

fn collect_call(c: &FunctionCall, out: &mut Vec<String>)
    ensures
        strings_view(final(out)@) == strings_view(old(out)@) + names_expr(*c.view().prefix) + names_exprs(
            c.view().arguments,
            0,
        ),
    decreases c, 0nat,
{
    let ghost start = strings_view(out@);
    collect_expr(&c.prefix, out);
    collect_exprs(&c.arguments, out);
    assert(c.view().arguments =~= exprs_view(c.arguments@));
    assert(strings_view(out@) =~= start + names_expr(*c.view().prefix) + names_exprs(c.view().arguments, 0));
}

fn collect_function(f: &FunctionExpression, out: &mut Vec<String>)
    ensures
        strings_view(final(out)@) == strings_view(old(out)@) + names_function(f.view()),
    decreases f, 0nat,
{
    let ghost start = strings_view(out@);
    collect_typeds(&f.parameters, out);
    collect_block(&f.block, out);
    assert(strings_view(out@) =~= start + names_function(f.view()));
}

/// Appends the names that an expression uses, in order.
pub fn collect_expr(e: &Expression, out: &mut Vec<String>)
    ensures
        strings_view(final(out)@) == strings_view(old(out)@) + names_expr(e.view()),
    decreases e, 1nat,
{
    let ghost start = strings_view(out@);
    match e {
        Expression::Identifier(s) => push_name(out, s),
        Expression::Unary { operand, .. } => collect_expr(operand, out),
        Expression::Binary { left, right, .. } => {
            collect_expr(left, out);
            collect_expr(right, out);
            assert(strings_view(out@) =~= start + names_expr(e.view()));
        },
        Expression::Parenthese(inner) => collect_expr(inner, out),
        Expression::Table(entries) => {
            assert(e.view()->Table_0 =~= entries_view(entries@));
            collect_entries(entries, out);
        },
        Expression::Function(f) => collect_function(f, out),
        Expression::Call(c) => {
            assert(e.view()->Call_0 == c.view());
            collect_call(c, out);
            assert(strings_view(out@) =~= start + names_expr(e.view()));
        },
        Expression::Field { prefix, .. } => collect_expr(prefix, out),
        Expression::Index { prefix, index } => {
            collect_expr(prefix, out);
            collect_expr(index, out);
            assert(strings_view(out@) =~= start + names_expr(e.view()));
        },
        _ => {
            assert(strings_view(out@) =~= start + names_expr(e.view()));
        },
    }
}

fn collect_branches(v: &Vec<IfBranch>, out: &mut Vec<String>)
    ensures
        strings_view(final(out)@) == strings_view(old(out)@) + names_branches(branches_view(v@), 0),
    decreases v, 0nat,
{
    let ghost sv = branches_view(v@);
    let ghost start = strings_view(out@);
    let mut i: usize = 0;
    while i < v.len()
        invariant
            i <= v@.len(),
            sv == branches_view(v@),
            strings_view(out@) + names_branches(sv, i as int) == start + names_branches(sv, 0),
        decreases v@.len() - i,
    {
        assert(decreases_to!(v => v[i as int]));
        let ghost before = strings_view(out@);
        collect_expr(&v[i].condition, out);
        collect_block(&v[i].block, out);
        assert(sv[i as int] == v@[i as int].view());
        assert(strings_view(out@) + names_branches(sv, i + 1) =~= before + names_branches(sv, i as int));
        i += 1;
    }
    assert(strings_view(out@) + names_branches(sv, i as int) =~= strings_view(out@));
}

fn collect_statement(s: &Statement, out: &mut Vec<String>)
    ensures
        strings_view(final(out)@) == strings_view(old(out)@) + names_statement(s.view()),
    decreases s, 1nat,
{
    let ghost start = strings_view(out@);
    match s {
        Statement::Assign { variables, values } => {
            assert(s.view()->Assign_variables =~= exprs_view(variables@));
            assert(s.view()->Assign_values =~= exprs_view(values@));
            collect_exprs(variables, out);
            collect_exprs(values, out);
        },
        Statement::CompoundAssign { variable, value, .. } => {
            collect_expr(variable, out);
            collect_expr(value, out);
        },
        Statement::LocalAssign { variables, values } => {
            assert(s.view()->LocalAssign_values =~= exprs_view(values@));
            collect_typeds(variables, out);
            collect_exprs(values, out);
        },
        Statement::LocalFunction { name, function } | Statement::Function { name, function } => {
            push_name(out, name);
            collect_function(function, out);
        },
        Statement::Call(c) => collect_call(c, out),
        Statement::If { branches, else_block } => {
            assert(s.view()->If_branches =~= branches_view(branches@));
            collect_branches(branches, out);
            match else_block {
                Some(b) => collect_block(b, out),
                None => {},
            }
        },
        Statement::While { condition, block } => {
            collect_expr(condition, out);
            collect_block(block, out);
        },
        Statement::Repeat { block, condition } => {
            collect_block(block, out);
            collect_expr(condition, out);
        },
        Statement::NumericFor { identifier, start: first, end, step, block } => {
            push_name(out, &identifier.name);
            collect_expr(first, out);
            collect_expr(end, out);
            match step {
                Some(e) => collect_expr(e, out),
                None => {},
            }
            collect_block(block, out);
        },
        Statement::GenericFor { identifiers, expressions, block } => {
            assert(s.view()->GenericFor_expressions =~= exprs_view(expressions@));
            collect_typeds(identifiers, out);
            collect_exprs(expressions, out);
            collect_block(block, out);
        },
        Statement::Do(b) => collect_block(b, out),
    }
    assert(strings_view(out@) =~= start + names_statement(s.view()));
}

/// Appends the names that a block uses or declares, in order.
pub fn collect_block(b: &Block, out: &mut Vec<String>)
    ensures
        strings_view(final(out)@) == strings_view(old(out)@) + names_block(b.view()),
    decreases b, 0nat,
{
    let ghost sv = b.view().statements;
    let ghost start = strings_view(out@);
    let mut i: usize = 0;
    while i < b.statements.len()
        invariant
            i <= b.statements@.len(),
            sv == b.view().statements,
            sv.len() == b.statements@.len(),
            strings_view(out@) + names_statements(sv, i as int) == start + names_statements(sv, 0),
        decreases b.statements@.len() - i,
    {
        assert(decreases_to!(b.statements => b.statements[i as int]));
        let ghost before = strings_view(out@);
        collect_statement(&b.statements[i], out);
        assert(sv[i as int] == b.statements@[i as int].view());
        assert(strings_view(out@) + names_statements(sv, i + 1) =~= before + names_statements(sv, i as int));
        i += 1;
    }
    assert(strings_view(out@) + names_statements(sv, i as int) =~= strings_view(out@));
    let ghost mid = strings_view(out@);
    match &b.last_statement {
        Some(LastStatement::Return(v)) => {
            assert(b.view().last_statement->0->Return_0 =~= exprs_view(v@));
            collect_exprs(v, out);
        },
        _ => {},
    }
    assert(strings_view(out@) =~= start + names_block(b.view()));
}

/// The length of the longest name.
pub open spec fn longest(taken: Seq<Seq<char>>) -> nat
    decreases taken.len(),
{
    if taken.len() == 0 {
        0
    } else {
        let rest = longest(taken.drop_last());
        if taken.last().len() > rest { taken.last().len() } else { rest }
    }
}

pub open spec fn underscores(n: nat) -> Seq<char> {
    Seq::new(n, |i: int| '_')
}

/// `base` where no taken name is `base`; else `base` followed by underscores
/// up to one character more than the longest taken name.
pub open spec fn fresh_name(base: Seq<char>, taken: Seq<Seq<char>>) -> Seq<char> {
    if taken.contains(base) { base + underscores((longest(taken) + 1 - base.len()) as nat) } else { base }
}

proof fn lemma_longest(taken: Seq<Seq<char>>)
    ensures
        forall|i: int| 0 <= i < taken.len() ==> (#[trigger] taken[i]).len() <= longest(taken),
    decreases taken.len(),
{
    if taken.len() > 0 {
        lemma_longest(taken.drop_last());
        assert forall|i: int| 0 <= i < taken.len() implies (#[trigger] taken[i]).len() <= longest(taken) by {
            if i < taken.len() - 1 {
                assert(taken[i] == taken.drop_last()[i]);
            }
        }
    }
}

/// A fresh name is none of the taken names.
pub proof fn fresh_name_is_fresh(base: Seq<char>, taken: Seq<Seq<char>>)
    ensures
        !taken.contains(fresh_name(base, taken)),
{
    lemma_longest(taken);
    if taken.contains(base) {
        let r = fresh_name(base, taken);
        assert(r.len() == longest(taken) + 1);
        if taken.contains(r) {
            let i = choose|i: int| 0 <= i < taken.len() && taken[i] == r;
        }
    }
}

/// A name that differs from every taken name, as `fresh_name` says.
pub fn fresh(base: String, taken: &Vec<String>) -> (r: String)
    ensures
        r@ == fresh_name(base@, strings_view(taken@)),
{
    let ghost tv = strings_view(taken@);
    let mut found = false;
    let mut longest_len: usize = 0;
    let mut i: usize = 0;
    assert(tv.take(0) =~= seq![]);
    while i < taken.len()
        invariant
            i <= taken@.len(),
            tv == strings_view(taken@),
            found == exists|j: int| 0 <= j < i && #[trigger] tv[j] == base@,
            longest_len == longest(tv.take(i as int)),
        decreases taken@.len() - i,
    {
        let c = chars_of(taken[i].as_str());
        assert(tv.take(i + 1).drop_last() =~= tv.take(i as int));
        assert(tv.take(i + 1).last() == taken@[i as int]@);
        if same_text(taken[i].as_str(), base.as_str()) {
            found = true;
        }
        if c.len() > longest_len {
            longest_len = c.len();
        }
        assert(tv[i as int] == taken@[i as int]@);
        i += 1;
    }
    assert(tv.take(i as int) =~= tv);
    if !found {
        return base;
    }
    proof { lemma_longest(tv); }
    let b = chars_of(base.as_str());
    proof {
        let k = choose|k: int| 0 <= k < tv.len() && #[trigger] tv[k] == base@;
    }
    assert(b@ + underscores(0) =~= b@);
    let mut r = base;
    let mut n: u128 = b.len() as u128;
    while n <= longest_len as u128
        invariant
            r@ == b@ + underscores((n - b@.len()) as nat),
            b@.len() <= n <= longest_len + 1,
        decreases longest_len + 1 - n,
    {
        push_char(&mut r, '_');
        assert(r@ =~= b@ + underscores((n + 1 - b@.len()) as nat));
        n += 1;
    }
    r
}

} // verus!
