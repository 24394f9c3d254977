//! Tables: entries in insertion order, found by the language's equality on
//! their keys.

use vstd::prelude::*;
use crate::types::{entry_vals, val_eq, Val, Value};

verus! {

broadcast use crate::types::group_value_models;

/// The index of the first entry from `i` on whose key is equal to `k`.
pub open spec fn find_key(entries: Seq<(Val, Val)>, k: Val, i: int) -> Option<int>
    decreases entries.len() - i,
{
    if i < 0 || i >= entries.len() {
        None
    } else if val_eq(k, entries[i].0) {
        Some(i)
    } else {
        find_key(entries, k, i + 1)
    }
}

/// The value that the entries give to `k`.
pub open spec fn table_get(entries: Seq<(Val, Val)>, k: Val) -> Option<Val> {
    match find_key(entries, k, 0) {
        Some(i) => Some(entries[i].1),
        None => None,
    }
}

/// The entries with `k` given the value `v`: the entry of an equal key keeps
/// its key and its place, a new key comes last.
pub open spec fn table_insert(entries: Seq<(Val, Val)>, k: Val, v: Val) -> Seq<(Val, Val)> {
    match find_key(entries, k, 0) {
        Some(i) => entries.update(i, (entries[i].0, v)),
        None => entries.push((k, v)),
    }
}

/// The entries without that of `k`.
pub open spec fn table_remove(entries: Seq<(Val, Val)>, k: Val) -> Seq<(Val, Val)> {
    match find_key(entries, k, 0) {
        Some(i) => entries.remove(i),
        None => entries,
    }
}

/// No two entries have equal keys.
pub open spec fn distinct_keys(entries: Seq<(Val, Val)>) -> bool {
    forall|i: int, j: int|
        0 <= i < j < entries.len() ==> !val_eq(
            (#[trigger] entries[i]).0,
            (#[trigger] entries[j]).0,
        )
}

/// What the search finds is the first entry with an equal key.
pub proof fn lemma_find_key(entries: Seq<(Val, Val)>, k: Val, i: int)
    requires
        0 <= i,
    ensures
        match find_key(entries, k, i) {
            Some(j) => {
                &&& i <= j < entries.len()
                &&& val_eq(k, entries[j].0)
                &&& forall|m: int| i <= m < j ==> !val_eq(k, (#[trigger] entries[m]).0)
            },
            None => forall|m: int| i <= m < entries.len() ==> !val_eq(k, (#[trigger] entries[m]).0),
        },
    decreases entries.len() - i,
{
    if i < entries.len() && !val_eq(k, entries[i].0) {
        lemma_find_key(entries, k, i + 1);
    }
}

/// The index of the first entry whose key is equal to `k`.
pub fn find_entry(entries: &Vec<(Value, Value)>, k: &Value) -> (r: Option<usize>)
    ensures
        match r {
            Some(i) => find_key(entry_vals(entries@), k@, 0) == Some(i as int) && i < entries.len(),
            None => find_key(entry_vals(entries@), k@, 0) is None,
        },
{
    let mut i: usize = 0;
    while i < entries.len()
        invariant
            i <= entries.len(),
            find_key(entry_vals(entries@), k@, 0) == find_key(entry_vals(entries@), k@, i as int),
        decreases entries.len() - i,
    {
        if k.equals(&entries[i].0) {
            return Some(i);
        }
        i += 1;
    }
    None
}

/// Copies the entries of a table.
pub fn clone_entries(entries: &Vec<(Value, Value)>) -> (res: Vec<(Value, Value)>)
    ensures
        entry_vals(res@) == entry_vals(entries@),
{
    let mut out: Vec<(Value, Value)> = Vec::new();
    let mut i: usize = 0;
    while i < entries.len()
        invariant
            i <= entries.len(),
            out.len() == i,
            forall|j: int|
                0 <= j < i ==> out@[j].0@ == entries@[j].0@ && out@[j].1@ == entries@[j].1@,
        decreases entries.len() - i,
    {
        out.push((entries[i].0.clone(), entries[i].1.clone()));
        i += 1;
    }
    assert(entry_vals(out@) =~= entry_vals(entries@));
    out
}

/// Gives `k` the value `v`.
pub fn insert_entry(entries: &mut Vec<(Value, Value)>, k: Value, v: Value)
    ensures
        entry_vals(final(entries)@) == table_insert(entry_vals(old(entries)@), k@, v@),
{
    match find_entry(entries, &k) {
        Some(i) => {
            let key = entries[i].0.clone();
            entries[i] = (key, v);
            assert(entry_vals(entries@) =~= table_insert(entry_vals(old(entries)@), k@, v@));
        },
        None => {
            entries.push((k, v));
            assert(entry_vals(entries@) =~= table_insert(entry_vals(old(entries)@), k@, v@));
        },
    }
}

/// Takes out the entry of `k`, if there is one.
pub fn remove_entry(entries: &mut Vec<(Value, Value)>, k: &Value)
    ensures
        entry_vals(final(entries)@) == table_remove(entry_vals(old(entries)@), k@),
{
    match find_entry(entries, k) {
        Some(i) => {
            entries.remove(i);
            assert(entry_vals(entries@) =~= table_remove(entry_vals(old(entries)@), k@));
        },
        None => {},
    }
}

} // verus!
