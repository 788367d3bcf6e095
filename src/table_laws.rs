//! Compaction keeps every key's value.
//!
//! In a table literal the last entry that claims a key gives that key its
//! value. Compacting a literal whose keys are all known keeps, for every key,
//! the value that the original literal gives it.
use vstd::prelude::*;
use crate::evaluator::{EXACT_LIMIT, eval};
use crate::nodes::{SEntry, SExpression};
use crate::remove_duplicated_keys::{
    KeyV, all_known, compact, entry_key, entry_value, explicit_entry, explicit_from, in_run,
    keys_of, last_index, positional_before, run_from, survives, value_key,
};

verus! {

/// The value that a literal gives to `key`: that of the last entry claiming it.
pub open spec fn winner(entries: Seq<SEntry>, key: KeyV) -> Option<SExpression> {
    let i = last_index(keys_of(entries), key, entries.len() as int);
    if i >= 0 { Some(entry_value(entries[i])) } else { None }
}

/// The key of an entry written with an explicit key or a name.
pub open spec fn explicit_key(e: SEntry) -> KeyV {
    match e {
        SEntry::Index { key, .. } => value_key(eval(key)),
        SEntry::Field { name, .. } => KeyV::String(name),
        SEntry::Value(_) => KeyV::Unknown,
    }
}

proof fn lemma_last_index_is(keys: Seq<KeyV>, key: KeyV, i: int, t: int)
    requires
        0 <= t < i <= keys.len(),
        keys[t] == key,
        forall|u: int| t < u < i ==> keys[u] != key,
    ensures
        last_index(keys, key, i) == t,
    decreases i,
{
    if i - 1 != t {
        lemma_last_index_is(keys, key, i - 1, t);
    }
}

proof fn lemma_last_index_none(keys: Seq<KeyV>, key: KeyV, i: int)
    requires
        0 <= i <= keys.len(),
        forall|u: int| 0 <= u < i ==> keys[u] != key,
    ensures
        last_index(keys, key, i) == -1,
    decreases i,
{
    if i > 0 {
        lemma_last_index_none(keys, key, i - 1);
    }
}

proof fn lemma_last_index_last(keys: Seq<KeyV>, key: KeyV, i: int)
    requires
        0 <= i <= keys.len(),
    ensures
        -1 <= last_index(keys, key, i) < i,
        last_index(keys, key, i) >= 0 ==> keys[last_index(keys, key, i)] == key
            && forall|u: int| last_index(keys, key, i) < u < i ==> keys[u] != key,
        (exists|j: int| 0 <= j < i && keys[j] == key) ==> last_index(keys, key, i) >= 0,
    decreases i,
{
    if i > 0 && keys[i - 1] != key {
        lemma_last_index_last(keys, key, i - 1);
        if exists|j: int| 0 <= j < i && keys[j] == key {
            let j = choose|j: int| 0 <= j < i && keys[j] == key;
            assert(j < i - 1);
        }
    }
}

proof fn lemma_positional_bound(entries: Seq<SEntry>, i: int)
    requires
        0 <= i,
    ensures
        0 <= positional_before(entries, i) <= i,
    decreases i,
{
    if i > 0 {
        lemma_positional_bound(entries, i - 1);
    }
}

/// Each entry of the explicit part comes from a winning entry outside the run,
/// and each such entry is there.
proof fn lemma_explicit_sources(entries: Seq<SEntry>, keys: Seq<KeyV>, m: int, start: int)
    requires
        0 <= start <= entries.len(),
        keys.len() == entries.len(),
    ensures
        forall|j: int| 0 <= j < explicit_from(entries, keys, m, start).len() ==> exists|i: int|
            start <= i < entries.len() && survives(keys, i) && !in_run(keys[i], m)
                && #[trigger] explicit_from(entries, keys, m, start)[j] == explicit_entry(entries[i], keys[i]),
        forall|i: int| start <= i < entries.len() && survives(keys, i) && !in_run(keys[i], m) ==> exists|j: int|
            0 <= j < explicit_from(entries, keys, m, start).len()
                && explicit_from(entries, keys, m, start)[j] == explicit_entry(entries[i], keys[i]),
    decreases entries.len() - start,
{
    if start < entries.len() {
        lemma_explicit_sources(entries, keys, m, start + 1);
        let rest = explicit_from(entries, keys, m, start + 1);
        let e = explicit_from(entries, keys, m, start);
        if survives(keys, start) && !in_run(keys[start], m) {
            let head = seq![explicit_entry(entries[start], keys[start])];
            assert(e == head + rest);
            assert forall|j: int| 0 <= j < e.len() implies exists|i: int|
                start <= i < entries.len() && survives(keys, i) && !in_run(keys[i], m)
                    && #[trigger] e[j] == explicit_entry(entries[i], keys[i]) by {
                if j > 0 {
                    assert(e[j] == rest[j - 1]);
                }
            }
            assert forall|i: int| start <= i < entries.len() && survives(keys, i) && !in_run(keys[i], m) implies exists|j: int|
                0 <= j < e.len() && e[j] == explicit_entry(entries[i], keys[i]) by {
                if i > start {
                    let j = choose|j: int| 0 <= j < rest.len() && rest[j] == explicit_entry(entries[i], keys[i]);
                    assert(e[j + 1] == rest[j]);
                } else {
                    assert(e[0] == explicit_entry(entries[i], keys[i]));
                }
            }
        } else {
            assert(e =~= rest);
        }
    } else {
        assert(explicit_from(entries, keys, m, start).len() == 0);
    }
}

proof fn lemma_explicit_entry_key(entries: Seq<SEntry>, i: int)
    requires
        0 <= i < entries.len() <= EXACT_LIMIT,
    ensures
        !(explicit_entry(entries[i], keys_of(entries)[i]) is Value),
        explicit_key(explicit_entry(entries[i], keys_of(entries)[i])) == keys_of(entries)[i],
        entry_value(explicit_entry(entries[i], keys_of(entries)[i])) == entry_value(entries[i]),
{
    lemma_positional_bound(entries, i);
    let k = keys_of(entries)[i];
    assert(k == entry_key(entries, i));
    match entries[i] {
        SEntry::Value(v) => {
            let p = positional_before(entries, i) + 1;
            assert(k == KeyV::Number(p));
            assert((p as u64) as int == p);
        },
        _ => {},
    }
}

proof fn lemma_positions_of_out(out: Seq<SEntry>, m: int, i: int)
    requires
        0 <= m <= out.len(),
        0 <= i <= out.len(),
        forall|j: int| 0 <= j < m ==> (#[trigger] out[j]) is Value,
        forall|j: int| m <= j < out.len() ==> !((#[trigger] out[j]) is Value),
    ensures
        positional_before(out, i) == if i <= m { i } else { m },
    decreases i,
{
    if i > 0 {
        lemma_positions_of_out(out, m, i - 1);
    }
}

/// Whether `x` is the explicit form of a winning entry outside the run.
pub open spec fn from_winner(entries: Seq<SEntry>, m: int, x: SEntry) -> bool {
    exists|i: int|
        0 <= i < entries.len() && survives(keys_of(entries), i) && !in_run(keys_of(entries)[i], m)
            && x == explicit_entry(entries[i], keys_of(entries)[i])
}

proof fn lemma_out_keys(entries: Seq<SEntry>)
    requires
        all_known(keys_of(entries)),
        entries.len() <= EXACT_LIMIT,
    ensures
        ({
            let keys = keys_of(entries);
            let m = run_from(keys, 1);
            let out = compact(entries);
            let ko = keys_of(out);
            &&& 0 <= m <= out.len()
            &&& forall|j: int| 0 <= j < m ==> #[trigger] ko[j] == KeyV::Number(j + 1)
                && out[j] == SEntry::Value(entry_value(entries[last_index(keys, KeyV::Number(j + 1), entries.len() as int)]))
            &&& forall|j: int| m <= j < out.len() ==> from_winner(entries, m, #[trigger] out[j])
                && ko[j] == explicit_key(out[j]) && !in_run(ko[j], m)
            &&& forall|i: int| 0 <= i < entries.len() && survives(keys, i) && !in_run(keys[i], m) ==> exists|j: int|
                m <= j < out.len() && out[j] == explicit_entry(entries[i], keys[i])
        }),
{
    let n = entries.len() as int;
    let keys = keys_of(entries);
    let m = run_from(keys, 1);
    crate::remove_duplicated_keys::lemma_run_bound_public(keys);
    let head = Seq::new(
        m as nat,
        |k: int| SEntry::Value(entry_value(entries[last_index(keys, KeyV::Number(k + 1), n)])),
    );
    let e = explicit_from(entries, keys, m, 0);
    let out = compact(entries);
    assert(out == head + e);
    lemma_explicit_sources(entries, keys, m, 0);
    assert forall|j: int| 0 <= j < e.len() implies !(#[trigger] e[j] is Value) && !in_run(explicit_key(e[j]), m)
        && from_winner(entries, m, e[j]) by {
        let i = choose|i: int|
            0 <= i < entries.len() && survives(keys, i) && !in_run(keys[i], m) && e[j] == explicit_entry(entries[i], keys[i]);
        lemma_explicit_entry_key(entries, i);
    }
    assert forall|j: int| 0 <= j < m implies (#[trigger] out[j]) is Value by {
        assert(out[j] == head[j]);
    }
    assert forall|j: int| m <= j < out.len() implies !((#[trigger] out[j]) is Value) by {
        assert(out[j] == e[j - m]);
    }
    let ko = keys_of(out);
    assert forall|j: int| 0 <= j < out.len() implies #[trigger] ko[j] == if j < m {
        KeyV::Number(j + 1)
    } else {
        explicit_key(out[j])
    } by {
        lemma_positions_of_out(out, m, j);
        assert(ko[j] == entry_key(out, j));
    }
    assert forall|j: int| 0 <= j < m implies out[j] == head[j] by {}
    assert forall|j: int| m <= j < out.len() implies out[j] == e[j - m] by {}
    assert forall|i: int| 0 <= i < entries.len() && survives(keys, i) && !in_run(keys[i], m) implies exists|j: int|
        m <= j < out.len() && out[j] == explicit_entry(entries[i], keys[i]) by {
        let j = choose|j: int| 0 <= j < e.len() && e[j] == explicit_entry(entries[i], keys[i]);
        assert(out[m + j] == e[j]);
    }
}

/// Compacting a literal whose keys are all known keeps, for every key, the
/// value that the literal gives it. (Positions are exact numbers while the
/// literal has at most 2^53 entries.)
pub proof fn compaction_keeps_every_value(entries: Seq<SEntry>, key: KeyV)
    requires
        all_known(keys_of(entries)),
        entries.len() <= EXACT_LIMIT,
    ensures
        winner(compact(entries), key) == winner(entries, key),
{
    let n = entries.len() as int;
    let keys = keys_of(entries);
    let m = run_from(keys, 1);
    let out = compact(entries);
    let ko = keys_of(out);
    lemma_out_keys(entries);
    lemma_last_index_last(keys, key, n);
    lemma_last_index_last(ko, key, out.len() as int);
    if in_run(key, m) {
        let k = key->Number_0;
        crate::remove_duplicated_keys::lemma_run_public(keys, k);
        assert(ko[k - 1] == key);
        assert forall|u: int| k - 1 < u < out.len() implies ko[u] != key by {
            if u < m {
                assert(ko[u] == KeyV::Number(u + 1));
            }
        }
        lemma_last_index_is(ko, key, out.len() as int, k - 1);
    } else {
        lemma_outside_run(entries, key);
    }
}

proof fn lemma_outside_run(entries: Seq<SEntry>, key: KeyV)
    requires
        all_known(keys_of(entries)),
        entries.len() <= EXACT_LIMIT,
        !in_run(key, run_from(keys_of(entries), 1)),
    ensures
        winner(compact(entries), key) == winner(entries, key),
{
    let n = entries.len() as int;
    let keys = keys_of(entries);
    let m = run_from(keys, 1);
    let out = compact(entries);
    let ko = keys_of(out);
    lemma_out_keys(entries);
    lemma_last_index_last(keys, key, n);
    lemma_last_index_last(ko, key, out.len() as int);
    let wi = last_index(keys, key, n);
    let wo = last_index(ko, key, out.len() as int);
    assert forall|j: int| 0 <= j < m implies ko[j] != key by {
        assert(ko[j] == KeyV::Number(j + 1));
    }
    if wi >= 0 {
        assert(survives(keys, wi));
        let j = choose|j: int| m <= j < out.len() && out[j] == explicit_entry(entries[wi], keys[wi]);
        lemma_explicit_entry_key(entries, wi);
        assert(ko[j] == key);
        assert(wo >= m);
        assert(from_winner(entries, m, out[wo]));
        let i = choose|i: int|
            0 <= i < entries.len() && survives(keys, i) && !in_run(keys[i], m) && out[wo] == explicit_entry(entries[i], keys[i]);
        lemma_explicit_entry_key(entries, i);
        assert(keys[i] == key);
        assert(i == wi) by {
            if i < wi {
                assert(keys[wi] == keys[i]);
            }
        }
    } else {
        assert forall|j: int| 0 <= j < out.len() implies ko[j] != key by {
            if j >= m {
                assert(from_winner(entries, m, out[j]));
                let i = choose|i: int|
                    0 <= i < entries.len() && survives(keys, i) && !in_run(keys[i], m) && out[j]
                        == explicit_entry(entries[i], keys[i]);
                lemma_explicit_entry_key(entries, i);
            }
        }
        lemma_last_index_none(ko, key, out.len() as int);
    }
}

} // verus!
