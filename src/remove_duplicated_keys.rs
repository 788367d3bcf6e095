//! Redeclared-key elimination: a table literal in which two entries claim the
//! same key keeps only the entry that wins at run time, or, where that cannot be
//! decided statically, becomes an immediately-called function that builds the
//! table in the original order.
use vstd::prelude::*;
use crate::evaluator::{EXACT_LIMIT, LuaValue, SValue, eval, evaluate};
use crate::nodes::{
    Block, Expression, FunctionCall, FunctionExpression, LastStatement, SBlock, SCall, SEntry,
    SExpression, SFunction, SLast, SStatement, STyped, Statement, TableEntry, TypedIdentifier,
};
use crate::hashing::{short_hash, source_hash};
use crate::rules::{
    Context, PropertyKind, RuleConfigurationError, RuleProperties, configuration_error,
    properties_view, validate_properties,
};
use crate::text::{chars_of, push_chars, same_text};
use crate::names::{collect_block, fresh, fresh_name, fresh_name_is_fresh, names_block};
use crate::table_laws::{compaction_keeps_every_value, winner};
use crate::visit::{NodeProcessor, visit_block, walk_block};

verus! {

/// The key that an entry claims.
pub enum KeyV {
    Number(int),
    String(Seq<char>),
    Boolean(bool),
    Unknown,
}

#[derive(Debug)]
pub enum TableKey {
    Number(i128),
    String(String),
    Boolean(bool),
    Unknown,
}

impl TableKey {
    pub open spec fn view(&self) -> KeyV {
        match self {
            TableKey::Number(n) => KeyV::Number(*n as int),
            TableKey::String(s) => KeyV::String(s@),
            TableKey::Boolean(b) => KeyV::Boolean(*b),
            TableKey::Unknown => KeyV::Unknown,
        }
    }
}

/// How many positional entries come before entry `i`.
pub open spec fn positional_before(entries: Seq<SEntry>, i: int) -> int
    decreases i,
{
    if i <= 0 {
        0
    } else {
        positional_before(entries, i - 1) + if entries[i - 1] is Value { 1int } else { 0int }
    }
}

pub open spec fn value_key(v: SValue) -> KeyV {
    match v {
        SValue::Number(n) => KeyV::Number(n),
        SValue::String(s) => KeyV::String(s),
        SValue::Boolean(b) => KeyV::Boolean(b),
        _ => KeyV::Unknown,
    }
}

/// The key that entry `i` claims: its position for a positional entry, the
/// constant value of its key for an explicit one (nil and non-constant keys
/// are unknown), its name for a named one.
pub open spec fn entry_key(entries: Seq<SEntry>, i: int) -> KeyV {
    match entries[i] {
        SEntry::Value(_) => KeyV::Number(positional_before(entries, i) + 1),
        SEntry::Index { key, .. } => value_key(eval(key)),
        SEntry::Field { name, .. } => KeyV::String(name),
    }
}

pub open spec fn keys_of(entries: Seq<SEntry>) -> Seq<KeyV> {
    Seq::new(entries.len(), |i: int| entry_key(entries, i))
}

pub open spec fn entry_value(e: SEntry) -> SExpression {
    match e {
        SEntry::Value(v) => v,
        SEntry::Index { value, .. } => value,
        SEntry::Field { value, .. } => value,
    }
}

/// Whether entry `i` is unknown or claims a key that an earlier entry claims.
pub open spec fn conflicts(keys: Seq<KeyV>, i: int) -> bool {
    keys[i] is Unknown || exists|j: int| 0 <= j < i && keys[j] == keys[i]
}

/// The first entry, from `i` on, that conflicts; the length when none does.
pub open spec fn cut_from(keys: Seq<KeyV>, i: int) -> int
    decreases keys.len() - i,
{
    if i >= keys.len() || i < 0 {
        keys.len() as int
    } else if conflicts(keys, i) {
        i
    } else {
        cut_from(keys, i + 1)
    }
}

/// Whether the last entry is a call or `...` in positional place, which may
/// stand for any number of values.
pub open spec fn expands(entries: Seq<SEntry>) -> bool {
    entries.len() > 0 && match entries.last() {
        SEntry::Value(SExpression::Call(_)) => true,
        SEntry::Value(SExpression::VariableArguments) => true,
        _ => false,
    }
}

/// Whether evaluating the expression can have no effect and cannot fail.
pub open spec fn pure(e: SExpression) -> bool
    decreases e,
{
    match e {
        SExpression::Nil | SExpression::True | SExpression::False | SExpression::Number(_)
        | SExpression::Decimal(_) | SExpression::String(_) | SExpression::Identifier(_)
        | SExpression::VariableArguments | SExpression::Function(_) => true,
        SExpression::Parenthese(inner) => pure(*inner),
        _ => !(eval(e) is Unknown),
    }
}

/// Whether `...` occurs in the expression outside a nested function.
pub open spec fn uses_varargs(e: SExpression) -> bool
    decreases e,
{
    match e {
        SExpression::VariableArguments => true,
        SExpression::Unary { operand, .. } => uses_varargs(*operand),
        SExpression::Binary { left, right, .. } => uses_varargs(*left) || uses_varargs(*right),
        SExpression::Parenthese(inner) => uses_varargs(*inner),
        SExpression::Table(entries) => exists|i: int|
            0 <= i < entries.len() && entry_uses_varargs(#[trigger] entries[i]),
        SExpression::Call(c) => uses_varargs(*c.prefix) || exists|i: int|
            0 <= i < c.arguments.len() && uses_varargs(#[trigger] c.arguments[i]),
        SExpression::Field { prefix, .. } => uses_varargs(*prefix),
        SExpression::Index { prefix, index } => uses_varargs(*prefix) || uses_varargs(*index),
        _ => false,
    }
}

pub open spec fn entry_uses_varargs(e: SEntry) -> bool
    decreases e,
{
    match e {
        SEntry::Value(v) => uses_varargs(v),
        SEntry::Index { key, value } => uses_varargs(key) || uses_varargs(value),
        SEntry::Field { value, .. } => uses_varargs(value),
    }
}

pub open spec fn entries_view(v: Seq<TableEntry>) -> Seq<SEntry> {
    Seq::new(v.len(), |i: int| v[i].view())
}

fn key_of_value(v: LuaValue) -> (r: TableKey)
    ensures
        r.view() == value_key(v.view()),
{
    match v {
        LuaValue::Number(n) => TableKey::Number(n as i128),
        LuaValue::String(s) => TableKey::String(s),
        LuaValue::Boolean(b) => TableKey::Boolean(b),
        _ => TableKey::Unknown,
    }
}

/// The key that each entry claims.
pub fn table_keys(entries: &Vec<TableEntry>) -> (r: Vec<TableKey>)
    ensures
        r@.len() == entries@.len(),
        forall|i: int|
            0 <= i < entries@.len() ==> #[trigger] r@[i].view() == entry_key(entries_view(entries@), i),
{
    let ghost ev = entries_view(entries@);
    let mut out: Vec<TableKey> = Vec::new();
    let mut position: i128 = 0;
    let mut i: usize = 0;
    while i < entries.len()
        invariant
            i <= entries@.len(),
            ev == entries_view(entries@),
            out@.len() == i,
            position == positional_before(ev, i as int),
            0 <= position <= i,
            forall|j: int| 0 <= j < i ==> #[trigger] out@[j].view() == entry_key(ev, j),
        decreases entries@.len() - i,
    {
        assert(ev[i as int] == entries@[i as int].view());
        let key = match &entries[i] {
            TableEntry::Value(_) => TableKey::Number(position + 1),
            TableEntry::Index { key, .. } => key_of_value(evaluate(key)),
            TableEntry::Field { name, .. } => TableKey::String(name.clone()),
        };
        if let TableEntry::Value(_) = &entries[i] {
            position = position + 1;
        }
        out.push(key);
        i += 1;
    }
    out
}

pub fn keys_equal(a: &TableKey, b: &TableKey) -> (r: bool)
    ensures
        r == (a.view() == b.view()),
{
    match (a, b) {
        (TableKey::Number(x), TableKey::Number(y)) => *x == *y,
        (TableKey::String(x), TableKey::String(y)) => same_text(x.as_str(), y.as_str()),
        (TableKey::Boolean(x), TableKey::Boolean(y)) => *x == *y,
        (TableKey::Unknown, TableKey::Unknown) => true,
        _ => false,
    }
}

pub open spec fn keys_view(v: Seq<TableKey>) -> Seq<KeyV> {
    Seq::new(v.len(), |i: int| v[i].view())
}

fn conflicts_at(keys: &Vec<TableKey>, i: usize) -> (r: bool)
    requires
        i < keys@.len(),
    ensures
        r == conflicts(keys_view(keys@), i as int),
{
    let ghost kv = keys_view(keys@);
    if let TableKey::Unknown = &keys[i] {
        return true;
    }
    let mut j: usize = 0;
    while j < i
        invariant
            j <= i < keys@.len(),
            kv == keys_view(keys@),
            !(kv[i as int] is Unknown),
            forall|k: int| 0 <= k < j ==> kv[k] != kv[i as int],
        decreases i - j,
    {
        if keys_equal(&keys[j], &keys[i]) {
            assert(kv[j as int] == kv[i as int]);
            return true;
        }
        j += 1;
    }
    false
}

/// The first entry that conflicts with an earlier one or has an unknown key.
pub fn find_cut(keys: &Vec<TableKey>) -> (r: usize)
    ensures
        r == cut_from(keys_view(keys@), 0),
{
    let ghost kv = keys_view(keys@);
    let mut i: usize = 0;
    while i < keys.len()
        invariant
            i <= keys@.len(),
            kv == keys_view(keys@),
            cut_from(kv, i as int) == cut_from(kv, 0),
        decreases keys@.len() - i,
    {
        if conflicts_at(keys, i) {
            return i;
        }
        i += 1;
    }
    i
}

pub fn is_pure(e: &Expression) -> (r: bool)
    ensures
        r == pure(e.view()),
    decreases e,
{
    match e {
        Expression::Nil | Expression::True | Expression::False | Expression::Number(_)
        | Expression::Decimal(_) | Expression::String(_) | Expression::Identifier(_)
        | Expression::VariableArguments | Expression::Function(_) => true,
        Expression::Parenthese(inner) => is_pure(inner),
        _ => !matches!(evaluate(e), LuaValue::Unknown),
    }
}

pub fn mentions_varargs(e: &Expression) -> (r: bool)
    ensures
        r == uses_varargs(e.view()),
    decreases e, 1nat,
{
    match e {
        Expression::VariableArguments => true,
        Expression::Unary { operand, .. } => mentions_varargs(operand),
        Expression::Binary { left, right, .. } => mentions_varargs(left) || mentions_varargs(right),
        Expression::Parenthese(inner) => mentions_varargs(inner),
        Expression::Table(entries) => {
            let r = entries_mention_varargs(entries);
            proof {
                let m = e.view()->Table_0;
                assert(forall|j: int| 0 <= j < entries@.len() ==> m[j] == entries@[j].view());
                if r {
                    let i = choose|i: int| 0 <= i < entries@.len() && entry_uses_varargs(#[trigger] entries@[i].view());
                    assert(entry_uses_varargs(m[i]));
                } else {
                    assert forall|i: int| 0 <= i < m.len() implies !entry_uses_varargs(#[trigger] m[i]) by {
                        assert(m[i] == entries@[i].view());
                    }
                }
            }
            r
        },
        Expression::Call(c) => {
            assert(e.view()->Call_0 == c.view());
            assert(*c.view().prefix == c.prefix.view());
            assert(forall|j: int| 0 <= j < c.arguments@.len() ==> c.view().arguments[j] == c.arguments@[j].view());
            if mentions_varargs(&c.prefix) {
                return true;
            }
            let r = expressions_mention_varargs(&c.arguments);
            proof {
                let m = c.view().arguments;
                if r {
                    let i = choose|i: int| 0 <= i < c.arguments@.len() && uses_varargs(#[trigger] c.arguments@[i].view());
                    assert(uses_varargs(m[i]));
                } else {
                    assert forall|i: int| 0 <= i < m.len() implies !uses_varargs(#[trigger] m[i]) by {
                        assert(m[i] == c.arguments@[i].view());
                    }
                }
            }
            r
        },
        Expression::Field { prefix, .. } => mentions_varargs(prefix),
        Expression::Index { prefix, index } => mentions_varargs(prefix) || mentions_varargs(index),
        _ => false,
    }
}

fn expressions_mention_varargs(v: &Vec<Expression>) -> (r: bool)
    ensures
        r == exists|i: int| 0 <= i < v@.len() && uses_varargs(#[trigger] v@[i].view()),
    decreases v, 0nat,
{
    let mut i: usize = 0;
    while i < v.len()
        invariant
            i <= v@.len(),
            forall|j: int| 0 <= j < i ==> !uses_varargs(#[trigger] v@[j].view()),
        decreases v@.len() - i,
    {
        assert(decreases_to!(v => v[i as int]));
        if mentions_varargs(&v[i]) {
            return true;
        }
        i += 1;
    }
    false
}

pub fn entry_mentions_varargs(e: &TableEntry) -> (r: bool)
    ensures
        r == entry_uses_varargs(e.view()),
    decreases e, 1nat,
{
    match e {
        TableEntry::Value(v) => mentions_varargs(v),
        TableEntry::Index { key, value } => mentions_varargs(key) || mentions_varargs(value),
        TableEntry::Field { value, .. } => mentions_varargs(value),
    }
}

fn entries_mention_varargs(v: &Vec<TableEntry>) -> (r: bool)
    ensures
        r == exists|i: int| 0 <= i < v@.len() && entry_uses_varargs(#[trigger] v@[i].view()),
    decreases v, 0nat,
{
    let mut i: usize = 0;
    while i < v.len()
        invariant
            i <= v@.len(),
            forall|j: int| 0 <= j < i ==> !entry_uses_varargs(#[trigger] v@[j].view()),
        decreases v@.len() - i,
    {
        assert(decreases_to!(v => v[i as int]));
        if entry_mentions_varargs(&v[i]) {
            return true;
        }
        i += 1;
    }
    false
}

// ----- compaction -----

pub open spec fn has_number_key(keys: Seq<KeyV>, n: int) -> bool {
    exists|i: int| 0 <= i < keys.len() && keys[i] == KeyV::Number(n)
}

/// The last `n` such that each of the keys `k..n` is claimed; `k - 1` when `k` is not.
pub open spec fn run_from(keys: Seq<KeyV>, k: int) -> int
    decreases keys.len() + 1 - k,
{
    if 1 <= k && k <= keys.len() && has_number_key(keys, k) {
        run_from(keys, k + 1)
    } else {
        k - 1
    }
}

/// The last entry before `i` that claims `key`, or -1.
pub open spec fn last_index(keys: Seq<KeyV>, key: KeyV, i: int) -> int
    decreases i,
{
    if i <= 0 {
        -1
    } else if keys[i - 1] == key {
        i - 1
    } else {
        last_index(keys, key, i - 1)
    }
}

/// Whether no later entry claims the key of entry `i`: the entry that wins.
pub open spec fn survives(keys: Seq<KeyV>, i: int) -> bool {
    forall|j: int| i < j < keys.len() ==> keys[j] != keys[i]
}

pub open spec fn in_run(key: KeyV, m: int) -> bool {
    match key {
        KeyV::Number(n) => 1 <= n <= m,
        _ => false,
    }
}

/// An entry written with an explicit key: a positional one gets its index.
pub open spec fn explicit_entry(e: SEntry, key: KeyV) -> SEntry {
    match e {
        SEntry::Value(v) => match key {
            KeyV::Number(n) => SEntry::Index { key: SExpression::Number(n as u64), value: v },
            _ => e,
        },
        _ => e,
    }
}

/// The winning entries from `i` on that the positional run does not hold, in order.
pub open spec fn explicit_from(entries: Seq<SEntry>, keys: Seq<KeyV>, m: int, i: int) -> Seq<SEntry>
    decreases entries.len() - i,
{
    if i >= entries.len() || i < 0 {
        seq![]
    } else {
        (if survives(keys, i) && !in_run(keys[i], m) {
            seq![explicit_entry(entries[i], keys[i])]
        } else {
            seq![]
        }) + explicit_from(entries, keys, m, i + 1)
    }
}

/// The compacted literal: the run of indices from 1 written positionally, each
/// with the value of the entry that wins it, then the other winning entries in
/// their original order.
pub open spec fn compact(entries: Seq<SEntry>) -> Seq<SEntry> {
    let keys = keys_of(entries);
    let m = run_from(keys, 1);
    Seq::new(
        m as nat,
        |k: int| SEntry::Value(entry_value(entries[last_index(keys, KeyV::Number(k + 1), entries.len() as int)])),
    ) + explicit_from(entries, keys, m, 0)
}

proof fn lemma_positional_bound(entries: Seq<SEntry>, i: int)
    requires
        0 <= i,
    ensures
        0 <= positional_before(entries, i) <= i,
    decreases i,
{
    if i > 0 {
        lemma_positional_bound(entries, i - 1);
    }
}

proof fn lemma_run(keys: Seq<KeyV>, k: int, n: int)
    requires
        1 <= k <= n <= run_from(keys, k),
    ensures
        has_number_key(keys, n),
    decreases keys.len() + 1 - k,
{
    if k < n {
        lemma_run(keys, k + 1, n);
    }
}

proof fn lemma_run_bound(keys: Seq<KeyV>, k: int)
    requires
        1 <= k,
    ensures
        k - 1 <= run_from(keys, k),
        k <= keys.len() + 1 ==> run_from(keys, k) <= keys.len(),
    decreases keys.len() + 1 - k,
{
    if 1 <= k && k <= keys.len() && has_number_key(keys, k) {
        lemma_run_bound(keys, k + 1);
    }
}

pub proof fn lemma_run_public(keys: Seq<KeyV>, n: int)
    requires
        1 <= n <= run_from(keys, 1),
    ensures
        has_number_key(keys, n),
{
    lemma_run(keys, 1, n);
}

pub proof fn lemma_run_bound_public(keys: Seq<KeyV>)
    ensures
        0 <= run_from(keys, 1) <= keys.len(),
{
    lemma_run_bound(keys, 1);
}

proof fn lemma_last_index(keys: Seq<KeyV>, key: KeyV, i: int)
    requires
        0 <= i <= keys.len(),
    ensures
        -1 <= last_index(keys, key, i) < i,
        last_index(keys, key, i) >= 0 ==> keys[last_index(keys, key, i)] == key,
        (exists|j: int| 0 <= j < i && keys[j] == key) ==> last_index(keys, key, i) >= 0,
    decreases i,
{
    if i > 0 && keys[i - 1] != key {
        lemma_last_index(keys, key, i - 1);
        if exists|j: int| 0 <= j < i && keys[j] == key {
            let j = choose|j: int| 0 <= j < i && keys[j] == key;
            assert(j < i - 1);
        }
    }
}

fn has_number(keys: &Vec<TableKey>, n: usize) -> (r: bool)
    ensures
        r == has_number_key(keys_view(keys@), n as int),
{
    let ghost kv = keys_view(keys@);
    let mut i: usize = 0;
    while i < keys.len()
        invariant
            i <= keys@.len(),
            kv == keys_view(keys@),
            forall|j: int| 0 <= j < i ==> kv[j] != KeyV::Number(n as int),
        decreases keys@.len() - i,
    {
        if let TableKey::Number(x) = &keys[i] {
            if *x == n as i128 {
                assert(kv[i as int] == KeyV::Number(n as int));
                return true;
            }
        }
        i += 1;
    }
    false
}

fn run_length(keys: &Vec<TableKey>) -> (r: usize)
    ensures
        r == run_from(keys_view(keys@), 1),
{
    let mut j: usize = 0;
    proof { lemma_run_bound(keys_view(keys@), 1); }
    while j < keys.len() && has_number(keys, j + 1)
        invariant
            j <= keys@.len(),
            run_from(keys_view(keys@), j + 1) == run_from(keys_view(keys@), 1),
        decreases keys@.len() - j,
    {
        j += 1;
    }
    j
}

fn find_last(keys: &Vec<TableKey>, key: &TableKey) -> (r: usize)
    requires
        exists|j: int| 0 <= j < keys@.len() && keys_view(keys@)[j] == key.view(),
    ensures
        r as int == last_index(keys_view(keys@), key.view(), keys@.len() as int),
        r < keys@.len(),
{
    let ghost kv = keys_view(keys@);
    proof { lemma_last_index(kv, key.view(), kv.len() as int); }
    let mut i: usize = keys.len();
    while i > 0
        invariant
            i <= keys@.len(),
            kv == keys_view(keys@),
            last_index(kv, key.view(), i as int) == last_index(kv, key.view(), kv.len() as int),
            last_index(kv, key.view(), kv.len() as int) >= 0,
        decreases i,
    {
        if keys_equal(&keys[i - 1], key) {
            return i - 1;
        }
        i -= 1;
    }
    0
}

fn survives_at(keys: &Vec<TableKey>, i: usize) -> (r: bool)
    requires
        i < keys@.len(),
    ensures
        r == survives(keys_view(keys@), i as int),
{
    let ghost kv = keys_view(keys@);
    let n = keys.len();
    let mut j: usize = i + 1;
    while j < keys.len()
        invariant
            i < j <= keys@.len(),
            kv == keys_view(keys@),
            forall|k: int| i < k < j ==> kv[k] != kv[i as int],
        decreases keys@.len() - j,
    {
        if keys_equal(&keys[j], &keys[i]) {
            assert(kv[j as int] == kv[i as int]);
            return false;
        }
        j += 1;
    }
    true
}

fn entry_value_copy(e: &TableEntry) -> (r: Expression)
    ensures
        r.view() == entry_value(e.view()),
{
    match e {
        TableEntry::Value(v) => v.duplicate(),
        TableEntry::Index { value, .. } => value.duplicate(),
        TableEntry::Field { value, .. } => value.duplicate(),
    }
}

/// The compacted entries of a literal whose keys are `keys`.
pub fn compact_entries(entries: &Vec<TableEntry>, keys: &Vec<TableKey>) -> (r: Vec<TableEntry>)
    requires
        keys@.len() == entries@.len(),
        forall|i: int| 0 <= i < entries@.len() ==> #[trigger] keys@[i].view() == entry_key(entries_view(entries@), i),
    ensures
        entries_view(r@) == compact(entries_view(entries@)),
{
    let ghost ev = entries_view(entries@);
    let ghost kv = keys_view(keys@);
    assert(kv =~= keys_of(ev));
    let m = run_length(keys);
    proof { lemma_run_bound(kv, 1); }
    let mut out: Vec<TableEntry> = Vec::new();
    let mut k: usize = 0;
    while k < m
        invariant
            k <= m,
            m as int == run_from(kv, 1),
            m <= keys@.len(),
            ev == entries_view(entries@),
            kv == keys_view(keys@),
            kv == keys_of(ev),
            keys@.len() == entries@.len(),
            out@.len() == k,
            forall|j: int| 0 <= j < k ==> (#[trigger] out@[j]).view() == SEntry::Value(
                entry_value(ev[last_index(kv, KeyV::Number(j + 1), ev.len() as int)]),
            ),
        decreases m - k,
    {
        proof {
            lemma_run(kv, 1, k + 1);
        }
        let key = TableKey::Number(k as i128 + 1);
        let idx = find_last(keys, &key);
        assert(ev[idx as int] == entries@[idx as int].view());
        out.push(TableEntry::Value(entry_value_copy(&entries[idx])));
        k += 1;
    }
    let ghost head = out@;
    let mut i: usize = 0;
    assert(entries_view(out@) =~= compact(ev).subrange(0, m as int));
    while i < entries.len()
        invariant
            i <= entries@.len(),
            m as int == run_from(kv, 1),
            m <= keys@.len(),
            ev == entries_view(entries@),
            kv == keys_view(keys@),
            kv == keys_of(ev),
            keys@.len() == entries@.len(),
            entries_view(out@) + explicit_from(ev, kv, m as int, i as int) == compact(ev),
        decreases entries@.len() - i,
    {
        assert(ev[i as int] == entries@[i as int].view());
        assert(kv[i as int] == keys@[i as int].view());
        proof { lemma_positional_bound(ev, i as int); }
        let keep = survives_at(keys, i) && !(match &keys[i] {
            TableKey::Number(n) => 1 <= *n && *n <= m as i128,
            _ => false,
        });
        if keep {
            let entry = match (&entries[i], &keys[i]) {
                (TableEntry::Value(v), TableKey::Number(n)) => TableEntry::Index {
                    key: Expression::Number(*n as u64),
                    value: v.duplicate(),
                },
                (e, _) => e.duplicate(),
            };
            let ghost before = out@;
            out.push(entry);
            assert(entries_view(out@) =~= entries_view(before) + seq![explicit_entry(ev[i as int], kv[i as int])]);
        }
        i += 1;
    }
    out
}

// ----- the table builder -----

/// The assignment that stands for entry `i` once the table `name` exists.
pub open spec fn entry_assignment(entries: Seq<SEntry>, name: Seq<char>, i: int) -> SStatement {
    let table = SExpression::Identifier(name);
    match entries[i] {
        SEntry::Value(v) => SStatement::Assign {
            variables: seq![SExpression::Index {
                prefix: Box::new(table),
                index: Box::new(SExpression::Number((positional_before(entries, i) + 1) as u64)),
            }],
            values: seq![v],
        },
        SEntry::Index { key, value } => SStatement::Assign {
            variables: seq![SExpression::Index { prefix: Box::new(table), index: Box::new(key) }],
            values: seq![value],
        },
        SEntry::Field { name: field, value } => SStatement::Assign {
            variables: seq![SExpression::Field { prefix: Box::new(table), field }],
            values: seq![value],
        },
    }
}

pub open spec fn assignments_from(entries: Seq<SEntry>, name: Seq<char>, i: int) -> Seq<SStatement>
    decreases entries.len() - i,
{
    if i >= entries.len() || i < 0 {
        seq![]
    } else {
        seq![entry_assignment(entries, name, i)] + assignments_from(entries, name, i + 1)
    }
}

/// `(function() local <name> = {<prefix>} <assignments> return <name> end)()`:
/// the entries before `cut` stay in the literal, each later one becomes an
/// assignment, in the original order. A literal that mentions `...` gets a
/// variadic function called with `...`, so that `...` means the same inside.
pub open spec fn table_builder(entries: Seq<SEntry>, cut: int, name: Seq<char>, variadic: bool) -> SExpression {
    let local = SStatement::LocalAssign {
        variables: seq![STyped { name, type_annotation: None }],
        values: seq![SExpression::Table(entries.take(cut))],
    };
    SExpression::Call(SCall {
        prefix: Box::new(SExpression::Parenthese(Box::new(SExpression::Function(Box::new(SFunction {
            parameters: seq![],
            is_variadic: variadic,
            block: SBlock {
                statements: seq![local] + assignments_from(entries, name, cut),
                last_statement: Some(SLast::Return(seq![SExpression::Identifier(name)])),
            },
        }))))),
        method: None,
        arguments: if variadic { seq![SExpression::VariableArguments] } else { seq![] },
    })
}

pub open spec fn all_known(keys: Seq<KeyV>) -> bool {
    forall|i: int| 0 <= i < keys.len() ==> !(#[trigger] keys[i] is Unknown)
}

pub open spec fn all_pure(entries: Seq<SEntry>) -> bool {
    forall|i: int| 0 <= i < entries.len() ==> pure(entry_value(#[trigger] entries[i]))
}

pub open spec fn any_varargs(entries: Seq<SEntry>) -> bool {
    exists|i: int| 0 <= i < entries.len() && entry_uses_varargs(#[trigger] entries[i])
}

/// The rewrite of one table literal, with `name` for the builder's local.
///
/// A literal that ends in a multi-valued positional entry, or whose entries all
/// claim distinct known keys, stays. One whose keys are all known and whose
/// values have no effects is compacted. Otherwise it becomes a builder that
/// evaluates every key and value once, in order, and passes `...` on where the
/// literal mentions it.
pub open spec fn rewrite_table(entries: Seq<SEntry>, name: Seq<char>) -> SExpression {
    let keys = keys_of(entries);
    let cut = cut_from(keys, 0);
    if expands(entries) || cut == entries.len() {
        SExpression::Table(entries)
    } else if all_known(keys) && all_pure(entries) {
        SExpression::Table(compact(entries))
    } else {
        table_builder(entries, cut, name, any_varargs(entries))
    }
}

fn assignment_for(entries: &Vec<TableEntry>, name: &String, i: usize) -> (r: Statement)
    requires
        i < entries@.len(),
    ensures
        r.view() == entry_assignment(entries_view(entries@), name@, i as int),
{
    let ghost ev = entries_view(entries@);
    let n = entries.len();
    assert(ev[i as int] == entries@[i as int].view());
    let table = Expression::Identifier(name.clone());
    assert(table.view() == SExpression::Identifier(name@));
    let (target, value) = match &entries[i] {
        TableEntry::Value(v) => {
            let mut position: u64 = 0;
            let mut j: usize = 0;
            proof { lemma_positional_bound(ev, i as int); }
            while j < i
                invariant
                    j <= i < entries@.len(),
                    n == entries@.len(),
                    ev == entries_view(entries@),
                    position as int == positional_before(ev, j as int),
                    position <= j,
                decreases i - j,
            {
                assert(ev[j as int] == entries@[j as int].view());
                if let TableEntry::Value(_) = &entries[j] {
                    position = position + 1;
                }
                j += 1;
            }
            let number = Expression::Number(position + 1);
            assert(number.view() == SExpression::Number((positional_before(ev, i as int) + 1) as u64));
            let t = Expression::Index { prefix: Box::new(table), index: Box::new(number) };
            assert(ev[i as int] == SEntry::Value(v.view()));
            assert(t.view() == entry_assignment(ev, name@, i as int)->Assign_variables[0]);
            (t, v.duplicate())
        },
        TableEntry::Index { key, value } => {
            let k = key.duplicate();
            let t = Expression::Index { prefix: Box::new(table), index: Box::new(k) };
            assert(ev[i as int] == SEntry::Index { key: key.view(), value: value.view() });
            assert(t.view() == entry_assignment(ev, name@, i as int)->Assign_variables[0]);
            (t, value.duplicate())
        },
        TableEntry::Field { name: field, value } => {
            let t = Expression::Field { prefix: Box::new(table), field: field.clone() };
            assert(ev[i as int] == SEntry::Field { name: field@, value: value.view() });
            assert(t.view() == entry_assignment(ev, name@, i as int)->Assign_variables[0]);
            (t, value.duplicate())
        },
    };
    let ghost (tv, vv) = (target.view(), value.view());
    let ghost expected = entry_assignment(ev, name@, i as int);
    assert(expected->Assign_variables =~= seq![tv]);
    assert(expected->Assign_values =~= seq![vv]);
    let r = Statement::Assign { variables: vec![target], values: vec![value] };
    assert(r.view()->Assign_variables =~= seq![tv]);
    assert(r.view()->Assign_values =~= seq![vv]);
    r
}

fn build_table(entries: &Vec<TableEntry>, cut: usize, name: &String, variadic: bool) -> (r: Expression)
    requires
        cut <= entries@.len(),
    ensures
        r.view() == table_builder(entries_view(entries@), cut as int, name@, variadic),
{
    let ghost ev = entries_view(entries@);
    let mut prefix: Vec<TableEntry> = Vec::new();
    let mut i: usize = 0;
    while i < cut
        invariant
            i <= cut <= entries@.len(),
            ev == entries_view(entries@),
            entries_view(prefix@) == ev.take(i as int),
        decreases cut - i,
    {
        let ghost before = prefix@;
        let e = entries[i].duplicate();
        assert(ev[i as int] == entries@[i as int].view());
        prefix.push(e);
        assert(entries_view(prefix@) =~= entries_view(before).push(e.view()));
        assert(ev.take(i + 1) =~= ev.take(i as int).push(ev[i as int]));
        i += 1;
    }
    let prefix_table = Expression::Table(prefix);
    assert(prefix_table.view()->Table_0 =~= ev.take(cut as int));
    let ghost ptv = prefix_table.view();
    let local = Statement::LocalAssign {
        variables: vec![TypedIdentifier { name: name.clone(), type_annotation: None }],
        values: vec![prefix_table],
    };
    assert(local.view()->LocalAssign_variables =~= seq![STyped { name: name@, type_annotation: None }]);
    assert(local.view()->LocalAssign_values =~= seq![ptv]);
    let ghost lv = local.view();
    let mut statements: Vec<Statement> = vec![local];
    let mut j: usize = cut;
    assert(assignments_from(ev, name@, cut as int) == assignments_from(ev, name@, j as int));
    while j < entries.len()
        invariant
            cut <= j <= entries@.len(),
            ev == entries_view(entries@),
            statements@.len() >= 1,
            Seq::new(statements@.len(), |k: int| statements@[k].view()) + assignments_from(ev, name@, j as int)
                == seq![lv] + assignments_from(ev, name@, cut as int),
        decreases entries@.len() - j,
    {
        let ghost before = Seq::new(statements@.len(), |k: int| statements@[k].view());
        let a = assignment_for(entries, name, j);
        statements.push(a);
        assert(Seq::new(statements@.len(), |k: int| statements@[k].view()) =~= before + seq![
            entry_assignment(ev, name@, j as int),
        ]);
        j += 1;
    }
    assert(assignments_from(ev, name@, j as int) =~= seq![]);
    let returned = vec![Expression::Identifier(name.clone())];
    assert(returned@[0].view() == SExpression::Identifier(name@));
    let ret = LastStatement::Return(returned);
    assert(ret.view()->Return_0 =~= seq![SExpression::Identifier(name@)]);
    let ghost rv = ret.view();
    let ghost sv = Seq::new(statements@.len(), |k: int| statements@[k].view());
    let body = Block { statements, last_statement: Some(ret) };
    assert(body.view().statements =~= sv);
    assert(body.view() == SBlock { statements: sv, last_statement: Some(rv) });
    let ghost bv = body.view();
    let function = FunctionExpression { parameters: Vec::new(), is_variadic: variadic, block: body };
    assert(function.view().parameters =~= seq![]);
    assert(function.view() == SFunction { parameters: seq![], is_variadic: variadic, block: bv });
    let ghost fv = function.view();
    let f_expr = Expression::Function(Box::new(function));
    assert(f_expr.view() == SExpression::Function(Box::new(fv)));
    let ghost fev = f_expr.view();
    let paren = Expression::Parenthese(Box::new(f_expr));
    assert(paren.view() == SExpression::Parenthese(Box::new(fev)));
    let ghost pv = paren.view();
    let arguments = if variadic { vec![Expression::VariableArguments] } else { Vec::new() };
    let ghost expected_arguments = if variadic { seq![SExpression::VariableArguments] } else { Seq::<SExpression>::empty() };
    let call = FunctionCall { prefix: Box::new(paren), method: None, arguments };
    assert(call.view().arguments =~= expected_arguments);
    assert(call.view() == SCall { prefix: Box::new(pv), method: None, arguments: expected_arguments });
    Expression::Call(call)
}

fn table_of(entries: Vec<TableEntry>) -> (r: Expression)
    ensures
        r.view() == SExpression::Table(entries_view(entries@)),
{
    let ghost ev = entries_view(entries@);
    let r = Expression::Table(entries);
    assert(r.view()->Table_0 =~= ev);
    r
}

proof fn lemma_cut_bound(keys: Seq<KeyV>, i: int)
    ensures
        cut_from(keys, i) <= keys.len(),
    decreases keys.len() - i,
{
    if i < keys.len() && i >= 0 && !conflicts(keys, i) {
        lemma_cut_bound(keys, i + 1);
    }
}

/// The rewrite of one table literal whose entries are `entries`.
pub fn process_table(entries: Vec<TableEntry>, name: &String) -> (r: Expression)
    ensures
        r.view() == rewrite_table(entries_view(entries@), name@),
{
    let ghost ev = entries_view(entries@);
    let keys = table_keys(&entries);
    assert(keys_view(keys@) =~= keys_of(ev));
    let n = entries.len();
    let expands_last = n > 0 && match &entries[n - 1] {
        TableEntry::Value(Expression::Call(_)) => true,
        TableEntry::Value(Expression::VariableArguments) => true,
        _ => false,
    };
    assert(n > 0 ==> ev.last() == entries@[n - 1].view());
    let cut = find_cut(&keys);
    proof { lemma_cut_bound(keys_of(ev), 0); }
    if expands_last || cut == n {
        return table_of(entries);
    }
    let mut known = true;
    let mut all_values_pure = true;
    let mut i: usize = 0;
    while i < n
        invariant
            i <= n == entries@.len() == keys@.len(),
            ev == entries_view(entries@),
            keys_view(keys@) == keys_of(ev),
            known == forall|j: int| 0 <= j < i ==> !(#[trigger] keys_of(ev)[j] is Unknown),
            all_values_pure == forall|j: int| 0 <= j < i ==> pure(entry_value(#[trigger] ev[j])),
        decreases n - i,
    {
        assert(keys_of(ev)[i as int] == keys@[i as int].view());
        assert(ev[i as int] == entries@[i as int].view());
        if let TableKey::Unknown = &keys[i] {
            known = false;
        }
        let value_pure = match &entries[i] {
            TableEntry::Value(v) => is_pure(v),
            TableEntry::Index { value, .. } => is_pure(value),
            TableEntry::Field { value, .. } => is_pure(value),
        };
        if !value_pure {
            all_values_pure = false;
        }
        i += 1;
    }
    if known && all_values_pure {
        let compacted = compact_entries(&entries, &keys);
        return table_of(compacted);
    }
    let varargs = entries_mention_varargs(&entries);
    proof {
        if varargs {
            let j = choose|j: int| 0 <= j < entries@.len() && entry_uses_varargs(#[trigger] entries@[j].view());
            assert(entry_uses_varargs(ev[j]));
        } else {
            assert forall|j: int| 0 <= j < ev.len() implies !entry_uses_varargs(#[trigger] ev[j]) by {
                assert(ev[j] == entries@[j].view());
            }
        }
    }
    build_table(&entries, cut, name, varargs)
}

/// The table rewrite with the name of the builder's local.
pub struct Processor {
    pub table_variable_name: String,
}

impl NodeProcessor for Processor {
    /// The name of the builder's local.
    type Config = Seq<char>;

    open spec fn config(&self) -> Seq<char> {
        self.table_variable_name@
    }

    open spec fn statement_spec(c: Seq<char>, s: SStatement) -> SStatement {
        s
    }

    open spec fn expression_spec(c: Seq<char>, e: SExpression) -> SExpression {
        match e {
            SExpression::Table(entries) => rewrite_table(entries, c),
            _ => e,
        }
    }

    fn process_statement(&self, s: Statement) -> (r: Statement) {
        s
    }

    fn process_expression(&self, e: Expression) -> (r: Expression) {
        match e {
            Expression::Table(entries) => {
                let ghost ev = entries_view(entries@);
                assert(Expression::Table(entries).view()->Table_0 =~= ev);
                process_table(entries, &self.table_variable_name)
            },
            _ => e,
        }
    }
}

// ----- the rule -----

pub const REMOVE_DUPLICATED_KEYS_RULE_NAME: &'static str = "remove_duplicated_keys";

/// The prefix of the builder's local, which the source's hash completes.
pub const TABLE_VARIABLE_NAME: &'static str = "__DARKLUA_REMOVE_DUPLICATED_KEYS_tbl";

/// The name of the builder's local for a source: made fresh where a name of
/// the tree (`taken`) has it.
pub open spec fn table_variable_name(source: Seq<u8>, taken: Seq<Seq<char>>) -> Seq<char> {
    fresh_name(TABLE_VARIABLE_NAME@ + source_hash(source), taken)
}

/// The builder's local differs from every name of the tree.
pub proof fn table_variable_name_is_fresh(source: Seq<u8>, taken: Seq<Seq<char>>)
    ensures
        !taken.contains(table_variable_name(source, taken)),
{
    fresh_name_is_fresh(TABLE_VARIABLE_NAME@ + source_hash(source), taken);
}

/// A rule that removes duplicated keys in table literals.
#[derive(Debug, Default, PartialEq, Eq)]
pub struct RemoveDuplicatedKeys {}

impl RemoveDuplicatedKeys {
    pub fn new() -> (r: Self) {
        RemoveDuplicatedKeys {}
    }

    pub fn get_name(&self) -> (r: &'static str)
        ensures
            r@ == REMOVE_DUPLICATED_KEYS_RULE_NAME@,
    {
        REMOVE_DUPLICATED_KEYS_RULE_NAME
    }

    /// The properties that differ from the defaults: there are none.
    pub fn serialize_to_properties(&self) -> (r: RuleProperties)
        ensures
            r@.len() == 0,
    {
        Vec::new()
    }

    /// The rule takes no property: the first one given is refused.
    pub fn configure(&mut self, properties: RuleProperties) -> (r: Result<(), RuleConfigurationError>)
        ensures
            match configuration_error(properties_view(properties@), seq![], seq![]) {
                None => r is Ok,
                Some(e) => r matches Err(x) && x.view() == e,
            },
    {
        let schema: Vec<(&str, PropertyKind)> = Vec::new();
        let required: Vec<&str> = Vec::new();
        assert(crate::rules::schema_view(schema@) =~= seq![]);
        assert(crate::rules::strs_view(required@) =~= seq![]);
        validate_properties(&properties, &schema, &required)
    }

    /// Rewrites every table literal of the block, innermost first.
    pub fn flawless_process(&self, block: &mut Block, context: &Context)
        ensures
            final(block).view() == walk_block::<Processor>(
                table_variable_name(context.original_code@, names_block(old(block).view())),
                old(block).view(),
            ),
    {
        let mut name = TABLE_VARIABLE_NAME.to_owned();
        let hash = short_hash(context.original_code.as_slice());
        push_chars(&mut name, &chars_of(hash.as_str()));
        let mut taken: Vec<String> = Vec::new();
        collect_block(block, &mut taken);
        let name = fresh(name, &taken);
        let processor = Processor { table_variable_name: name };
        let rewritten = visit_block(&processor, block);
        *block = rewritten;
    }
}

/// For a literal whose keys are all known and whose values have no effects,
/// the rule keeps it a literal, and the rewritten literal gives every key the
/// value that the original gives it.
pub proof fn table_rule_keeps_every_value(entries: Seq<SEntry>, name: Seq<char>, key: KeyV)
    requires
        all_known(keys_of(entries)),
        all_pure(entries),
        entries.len() <= EXACT_LIMIT,
    ensures
        rewrite_table(entries, name) matches SExpression::Table(out) && winner(out, key) == winner(entries, key),
{
    compaction_keeps_every_value(entries, key);
}

/// The key that `<table>[k] = v` or `<table>.f = v` sets.
pub open spec fn assigned_key(s: SStatement) -> KeyV {
    match s {
        SStatement::Assign { variables, .. } => if variables.len() == 0 {
            KeyV::Unknown
        } else {
            match variables[0] {
                SExpression::Index { index, .. } => value_key(eval(*index)),
                SExpression::Field { field, .. } => KeyV::String(field),
                _ => KeyV::Unknown,
            }
        },
        _ => KeyV::Unknown,
    }
}

/// The value a key gets from the literal `{base}` followed by `assignments`,
/// run in order: that of the last assignment setting it, else the literal's.
pub open spec fn built_value(base: Seq<SEntry>, assignments: Seq<SStatement>, key: KeyV) -> Option<SExpression>
    decreases assignments.len(),
{
    if assignments.len() == 0 {
        crate::table_laws::winner(base, key)
    } else if assigned_key(assignments.last()) == key {
        Some(assignments.last()->Assign_values[0])
    } else {
        built_value(base, assignments.drop_last(), key)
    }
}

proof fn lemma_positional_prefix(entries: Seq<SEntry>, j: int, i: int)
    requires
        0 <= i <= j <= entries.len(),
    ensures
        positional_before(entries.take(j), i) == positional_before(entries, i),
    decreases i,
{
    if i > 0 {
        lemma_positional_prefix(entries, j, i - 1);
    }
}

proof fn lemma_assignments_extend(entries: Seq<SEntry>, name: Seq<char>, j: int, i: int)
    requires
        0 <= i <= j < entries.len(),
    ensures
        assignments_from(entries.take(j + 1), name, i) == assignments_from(entries.take(j), name, i).push(
            entry_assignment(entries, name, j),
        ),
    decreases j - i,
{
    lemma_positional_prefix(entries, j + 1, j);
    assert(entry_assignment(entries.take(j + 1), name, j) == entry_assignment(entries, name, j));
    if i < j {
        lemma_assignments_extend(entries, name, j, i + 1);
        lemma_positional_prefix(entries, j + 1, i);
        lemma_positional_prefix(entries, j, i);
        assert(entry_assignment(entries.take(j + 1), name, i) == entry_assignment(entries.take(j), name, i));
        assert(assignments_from(entries.take(j + 1), name, i) =~= assignments_from(entries.take(j), name, i).push(
            entry_assignment(entries, name, j),
        ));
    } else {
        assert(assignments_from(entries.take(j), name, i) =~= seq![]);
        assert(assignments_from(entries.take(j + 1), name, j + 1) =~= seq![]);
        assert(assignments_from(entries.take(j + 1), name, i) =~= seq![entry_assignment(entries, name, j)]);
    }
}

proof fn lemma_last_index_agree(k1: Seq<KeyV>, k2: Seq<KeyV>, key: KeyV, i: int)
    requires
        0 <= i <= k1.len(),
        i <= k2.len(),
        forall|u: int| 0 <= u < i ==> k1[u] == k2[u],
    ensures
        last_index(k1, key, i) == last_index(k2, key, i),
    decreases i,
{
    if i > 0 {
        lemma_last_index_agree(k1, k2, key, i - 1);
    }
}

proof fn lemma_keys_prefix(entries: Seq<SEntry>, j: int)
    requires
        0 <= j <= entries.len(),
    ensures
        forall|u: int| 0 <= u < j ==> #[trigger] keys_of(entries.take(j))[u] == keys_of(entries)[u],
{
    assert forall|u: int| 0 <= u < j implies #[trigger] keys_of(entries.take(j))[u] == keys_of(entries)[u] by {
        lemma_positional_prefix(entries, j, u);
    }
}

proof fn lemma_built_prefix(entries: Seq<SEntry>, name: Seq<char>, cut: int, j: int, key: KeyV)
    requires
        0 <= cut <= j <= entries.len() <= EXACT_LIMIT,
    ensures
        built_value(entries.take(cut), assignments_from(entries.take(j), name, cut), key)
            == crate::table_laws::winner(entries.take(j), key),
    decreases j - cut,
{
    if j == cut {
        assert(assignments_from(entries.take(j), name, cut) =~= seq![]);
    } else {
        lemma_built_prefix(entries, name, cut, j - 1, key);
        lemma_assignments_extend(entries, name, j - 1, cut);
        let a = entry_assignment(entries, name, j - 1);
        let prev = assignments_from(entries.take(j - 1), name, cut);
        assert(prev.push(a).drop_last() =~= prev);
        lemma_keys_prefix(entries, j);
        lemma_keys_prefix(entries, j - 1);
        lemma_positional_bound(entries, j - 1);
        let p = positional_before(entries, j - 1) + 1;
        assert(((p as u64) as int) == p);
        assert(assigned_key(a) == keys_of(entries)[j - 1]);
        let kj = keys_of(entries.take(j));
        let kj1 = keys_of(entries.take(j - 1));
        assert(entries.take(j)[j - 1] == entries[j - 1]);
        if assigned_key(a) != key {
            assert(last_index(kj, key, j) == last_index(kj, key, j - 1));
            lemma_last_index_agree(kj, kj1, key, j - 1);
            assert forall|u: int| 0 <= u < last_index(kj1, key, j - 1) + 1 && u < j - 1 implies entries.take(j)[u] == entries.take(j - 1)[u] by {}
            lemma_last_index(kj1, key, j - 1);
        }
    }
}

/// The builder gives every key the value that the literal gives it: the
/// entries before the cut are its literal, each later one an assignment run
/// in the original order. (Keys known; at most 2^53 entries.)
pub proof fn builder_keeps_every_value(entries: Seq<SEntry>, name: Seq<char>, cut: int, key: KeyV)
    requires
        0 <= cut <= entries.len() <= EXACT_LIMIT,
    ensures
        built_value(entries.take(cut), assignments_from(entries, name, cut), key)
            == crate::table_laws::winner(entries, key),
{
    lemma_built_prefix(entries, name, cut, entries.len() as int, key);
    assert(entries.take(entries.len() as int) =~= entries);
}

} // verus!
