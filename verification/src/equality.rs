//! Equality is an equivalence on valid values, and the operations on
//! tables keep tables valid.

use vstd::prelude::*;
use crate::eval::builtins::{assoc_spec, dissoc_spec, eq_spec, insert_pairs, remove_keys};
use crate::table::{distinct_keys, find_key, lemma_find_key, table_insert, table_remove};
use crate::types::{bool_val, entry_eq, has_entry, val_eq, Val};

verus! {

/// `(= x x)` is true for every `x`.
pub proof fn law_equals_itself(x: Val)
    ensures
        eq_spec(seq![x, x]) == Ok::<Val, Val>(bool_val(true)),
{
    lemma_eq_reflexive(x);
    let args = seq![x, x];
    assert forall|i: int| 1 <= i < args.len() implies val_eq(#[trigger] args[i], args[0]) by {}
}

/// Equality is reflexive.
pub proof fn lemma_eq_reflexive(x: Val)
    ensures
        val_eq(x, x),
    decreases x,
{
    match x {
        Val::List(items) => {
            assert forall|i: int| 0 <= i < items.len() implies val_eq(
                items[i],
                #[trigger] x->List_0[i],
            ) by {
                lemma_eq_reflexive(items[i]);
            }
        },
        Val::Table(entries) => {
            assert forall|i: int| 0 <= i < entries.len() implies crate::types::has_entry(
                x->Table_0,
                #[trigger] entries[i],
            ) by {
                lemma_eq_reflexive(entries[i].0);
                lemma_eq_reflexive(entries[i].1);
                assert(crate::types::entry_eq(entries[i], x->Table_0[i]));
            }
        },
        Val::Lambda { args, body, captures, is_macro } => {
            lemma_eq_reflexive(*args);
            lemma_eq_reflexive(*body);
        },
        _ => {},
    }
}

/// Whether a value is valid: no table in it has two entries with equal
/// keys.
pub open spec fn well_formed(v: Val) -> bool
    decreases v,
{
    match v {
        Val::List(items) => forall|i: int| 0 <= i < items.len() ==> well_formed(#[trigger] items[i]),
        Val::Table(entries) => {
            &&& distinct_keys(entries)
            &&& forall|i: int|
                0 <= i < entries.len() ==> well_formed((#[trigger] entries[i]).0) && well_formed(
                    entries[i].1,
                )
        },
        Val::Lambda { args, body, captures, is_macro } => well_formed(*args) && well_formed(*body),
        _ => true,
    }
}

/// A sequence of `n` different numbers below `n` holds every number below
/// `n`.
proof fn lemma_pigeonhole(f: Seq<int>)
    requires
        forall|i: int| 0 <= i < f.len() ==> 0 <= #[trigger] f[i] < f.len(),
        f.no_duplicates(),
    ensures
        forall|j: int| 0 <= j < f.len() ==> f.contains(j),
{
    let n = f.len() as int;
    let image = f.to_set();
    let range = vstd::set_lib::set_int_range(0, n);
    f.unique_seq_to_set();
    vstd::set_lib::lemma_int_range(0, n);
    vstd::seq_lib::seq_to_set_is_finite(f);
    assert(image.subset_of(range)) by {
        assert forall|x: int| image.contains(x) implies range.contains(x) by {
            let i = choose|i: int| 0 <= i < f.len() && f[i] == x;
        }
    }
    vstd::set_lib::lemma_subset_equality(image, range);
    assert forall|j: int| 0 <= j < f.len() implies f.contains(j) by {
        assert(range.contains(j));
        assert(image.contains(j));
    }
}

/// Equality is transitive.
pub proof fn lemma_eq_transitive(a: Val, b: Val, c: Val)
    requires
        val_eq(a, b),
        val_eq(b, c),
    ensures
        val_eq(a, c),
    decreases a,
{
    match a {
        Val::List(x) => {
            let y = b->List_0;
            let z = c->List_0;
            assert forall|i: int| 0 <= i < x.len() implies val_eq(x[i], #[trigger] z[i]) by {
                assert(val_eq(x[i], y[i]));
                assert(val_eq(y[i], z[i]));
                lemma_eq_transitive(x[i], y[i], z[i]);
            }
        },
        Val::Table(x) => {
            let y = b->Table_0;
            let z = c->Table_0;
            assert forall|i: int| 0 <= i < x.len() implies has_entry(z, #[trigger] x[i]) by {
                assert(has_entry(y, x[i]));
                let j = choose|j: int| 0 <= j < y.len() && entry_eq(x[i], #[trigger] y[j]);
                assert(has_entry(z, y[j]));
                let k = choose|k: int| 0 <= k < z.len() && entry_eq(y[j], #[trigger] z[k]);
                lemma_eq_transitive(x[i].0, y[j].0, z[k].0);
                lemma_eq_transitive(x[i].1, y[j].1, z[k].1);
                assert(entry_eq(x[i], z[k]));
            }
        },
        Val::Lambda { args, body, captures, is_macro } => {
            lemma_eq_transitive(*args, *b->Lambda_args, *c->Lambda_args);
            lemma_eq_transitive(*body, *b->Lambda_body, *c->Lambda_body);
        },
        _ => {},
    }
}

/// Whether `f` matches the entries of `x` with those of `y`: to each entry
/// of `x` it gives the index of an entry of `y` that is equal to it, and to
/// no two the same.
pub open spec fn matches_entries(f: Seq<int>, x: Seq<(Val, Val)>, y: Seq<(Val, Val)>) -> bool {
    &&& f.len() == x.len()
    &&& x.len() == y.len()
    &&& forall|i: int| 0 <= i < f.len() ==> 0 <= #[trigger] f[i] < y.len()
    &&& f.no_duplicates()
    &&& forall|i: int| 0 <= i < f.len() ==> entry_eq(x[i], y[#[trigger] f[i]])
}

/// The entries of two valid tables that are equal can be matched one to
/// one.
pub proof fn lemma_table_matching(x: Seq<(Val, Val)>, y: Seq<(Val, Val)>) -> (f: Seq<int>)
    requires
        well_formed(Val::Table(x)),
        well_formed(Val::Table(y)),
        val_eq(Val::Table(x), Val::Table(y)),
    ensures
        matches_entries(f, x, y),
    decreases Val::Table(x), 0nat,
{
    let n = x.len() as int;
    let f = Seq::new(
        x.len(),
        |i: int| choose|j: int| 0 <= j < y.len() && entry_eq(x[i], #[trigger] y[j]),
    );
    assert forall|i: int| 0 <= i < n implies 0 <= #[trigger] f[i] < n && entry_eq(x[i], y[f[i]]) by {
        assert(has_entry(y, x[i]));
    }
    assert forall|i1: int, i2: int| 0 <= i1 < n && 0 <= i2 < n && i1 != i2 implies f[i1]
        != f[i2] by {
        if f[i1] == f[i2] {
            let j = f[i1];
            let t = Val::Table(x);
            assert(decreases_to!(t => t->Table_0[i1].0));
            assert(decreases_to!(t => t->Table_0[i2].0));
            assert(entry_eq(x[i1], y[j]));
            assert(entry_eq(x[i2], y[j]));
            lemma_eq_symmetric(x[i2].0, y[j].0);
            lemma_eq_transitive(x[i1].0, y[j].0, x[i2].0);
            lemma_eq_symmetric(x[i1].0, y[j].0);
            lemma_eq_transitive(x[i2].0, y[j].0, x[i1].0);
            assert(false);
        }
    }
    f
}

/// Equality is symmetric on valid values.
pub proof fn lemma_eq_symmetric(a: Val, b: Val)
    requires
        well_formed(a),
        well_formed(b),
        val_eq(a, b),
    ensures
        val_eq(b, a),
    decreases a, 1nat,
{
    match a {
        Val::List(x) => {
            let y = b->List_0;
            assert forall|i: int| 0 <= i < y.len() implies val_eq(y[i], #[trigger] x[i]) by {
                assert(val_eq(x[i], y[i]));
                lemma_eq_symmetric(x[i], y[i]);
            }
        },
        Val::Table(x) => {
            let y = b->Table_0;
            let f = lemma_table_matching(x, y);
            lemma_pigeonhole(f);
            assert forall|j: int| 0 <= j < y.len() implies has_entry(x, #[trigger] y[j]) by {
                assert(f.contains(j));
                let i = choose|i: int| 0 <= i < f.len() && f[i] == j;
                assert(entry_eq(x[i], y[f[i]]));
                lemma_eq_symmetric(x[i].0, y[j].0);
                lemma_eq_symmetric(x[i].1, y[j].1);
                assert(entry_eq(y[j], x[i]));
            }
        },
        Val::Lambda { args, body, captures, is_macro } => {
            lemma_eq_symmetric(*args, *b->Lambda_args);
            lemma_eq_symmetric(*body, *b->Lambda_body);
        },
        _ => {},
    }
}

/// Equality is an equivalence on valid values: reflexive, symmetric and
/// transitive.
pub proof fn law_equality(x: Val, y: Val, z: Val)
    requires
        well_formed(x),
        well_formed(y),
        well_formed(z),
    ensures
        val_eq(x, x),
        val_eq(x, y) ==> val_eq(y, x),
        val_eq(x, y) && val_eq(y, z) ==> val_eq(x, z),
{
    lemma_eq_reflexive(x);
    if val_eq(x, y) {
        lemma_eq_symmetric(x, y);
        if val_eq(y, z) {
            lemma_eq_transitive(x, y, z);
        }
    }
}

/// Putting an entry into a valid table leaves a valid table.
pub proof fn lemma_insert_valid(entries: Seq<(Val, Val)>, k: Val, v: Val)
    requires
        well_formed(Val::Table(entries)),
        well_formed(k),
        well_formed(v),
    ensures
        well_formed(Val::Table(table_insert(entries, k, v))),
{
    let after = table_insert(entries, k, v);
    lemma_find_key(entries, k, 0);
    match find_key(entries, k, 0) {
        Some(i) => {
            assert forall|a: int, b: int| 0 <= a < b < after.len() implies !val_eq(
                (#[trigger] after[a]).0,
                (#[trigger] after[b]).0,
            ) by {
                assert(after[a].0 == entries[a].0);
                assert(after[b].0 == entries[b].0);
            }
            assert forall|j: int| 0 <= j < after.len() implies well_formed(
                (#[trigger] after[j]).0,
            ) && well_formed(after[j].1) by {
                assert(after[j].0 == entries[j].0);
            }
        },
        None => {
            assert forall|a: int, b: int| 0 <= a < b < after.len() implies !val_eq(
                (#[trigger] after[a]).0,
                (#[trigger] after[b]).0,
            ) by {
                if b == entries.len() {
                    assert(after[a] == entries[a]);
                    if val_eq(entries[a].0, k) {
                        lemma_eq_symmetric(entries[a].0, k);
                        assert(false);
                    }
                } else {
                    assert(after[a] == entries[a]);
                    assert(after[b] == entries[b]);
                }
            }
            assert forall|j: int| 0 <= j < after.len() implies well_formed(
                (#[trigger] after[j]).0,
            ) && well_formed(after[j].1) by {
                if j < entries.len() {
                    assert(after[j] == entries[j]);
                }
            }
        },
    }
}

/// Taking an entry out of a valid table leaves a valid table.
pub proof fn lemma_remove_valid(entries: Seq<(Val, Val)>, k: Val)
    requires
        well_formed(Val::Table(entries)),
    ensures
        well_formed(Val::Table(table_remove(entries, k))),
{
    let after = table_remove(entries, k);
    lemma_find_key(entries, k, 0);
    match find_key(entries, k, 0) {
        Some(i) => {
            assert forall|a: int, b: int| 0 <= a < b < after.len() implies !val_eq(
                (#[trigger] after[a]).0,
                (#[trigger] after[b]).0,
            ) by {
                let a0 = if a < i {
                    a
                } else {
                    a + 1
                };
                let b0 = if b < i {
                    b
                } else {
                    b + 1
                };
                assert(after[a] == entries[a0]);
                assert(after[b] == entries[b0]);
            }
            assert forall|j: int| 0 <= j < after.len() implies well_formed(
                (#[trigger] after[j]).0,
            ) && well_formed(after[j].1) by {
                let j0 = if j < i {
                    j
                } else {
                    j + 1
                };
                assert(after[j] == entries[j0]);
            }
        },
        None => {},
    }
}

proof fn lemma_insert_pairs_valid(entries: Seq<(Val, Val)>, args: Seq<Val>, i: int)
    requires
        well_formed(Val::Table(entries)),
        forall|j: int| 0 <= j < args.len() ==> well_formed(#[trigger] args[j]),
    ensures
        well_formed(Val::Table(insert_pairs(entries, args, i))),
    decreases args.len() - i,
{
    if 0 <= i && i + 1 < args.len() {
        lemma_insert_valid(entries, args[i], args[i + 1]);
        lemma_insert_pairs_valid(table_insert(entries, args[i], args[i + 1]), args, i + 2);
    }
}

proof fn lemma_remove_keys_valid(entries: Seq<(Val, Val)>, args: Seq<Val>, i: int)
    requires
        well_formed(Val::Table(entries)),
    ensures
        well_formed(Val::Table(remove_keys(entries, args, i))),
    decreases args.len() - i,
{
    if 0 <= i < args.len() {
        lemma_remove_valid(entries, args[i]);
        lemma_remove_keys_valid(table_remove(entries, args[i]), args, i + 1);
    }
}

/// Tables stay valid: what `assoc` and `dissoc` make of valid values is a
/// table without two equal keys, and so is the table that the reader makes
/// of a table literal with valid keys and values.
pub proof fn law_tables_stay_valid(args: Seq<Val>)
    requires
        forall|j: int| 0 <= j < args.len() ==> well_formed(#[trigger] args[j]),
    ensures
        assoc_spec(args) matches Ok(t) ==> well_formed(t),
        dissoc_spec(args) matches Ok(t) ==> well_formed(t),
        well_formed(Val::Table(insert_pairs(seq![], args, 0))),
{
    if args.len() > 0 && args[0] is Table {
        assert(well_formed(args[0]));
        lemma_insert_pairs_valid(args[0]->Table_0, args, 1);
        lemma_remove_keys_valid(args[0]->Table_0, args, 1);
    }
    assert(well_formed(Val::Table(seq![])));
    lemma_insert_pairs_valid(seq![], args, 0);
}

} // verus!
