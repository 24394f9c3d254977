//! Hashing of values: the kind of a value first, then what it holds. What a
//! lambda captured and which cell an atom is do not count, so that values
//! that are equal hash alike.

use vstd::prelude::*;
use crate::text::to_chars;
use crate::equality::{lemma_table_matching, well_formed};
use crate::types::{entry_eq, val_eq, Builtin, TypeTag, Val, Value};

verus! {

/// Folds one more number into a hash.
#[verifier::opaque]
pub open spec fn mix(h: u64, x: u64) -> u64 {
    h.wrapping_mul(1099511628211).wrapping_add(x)
}

/// The hash of a text, character by character.
pub open spec fn hash_chars(s: Seq<char>) -> u64
    decreases s.len(),
{
    if s.len() == 0 {
        14695981039346656037
    } else {
        mix(hash_chars(s.drop_last()), s.last() as u64)
    }
}

/// The number of a type tag.
pub open spec fn tag_code(t: TypeTag) -> u64 {
    match t {
        TypeTag::Int => 0,
        TypeTag::String => 1,
        TypeTag::Symbol => 2,
        TypeTag::Bool => 3,
        TypeTag::Nil => 4,
        TypeTag::List => 5,
        TypeTag::Error => 6,
        TypeTag::Table => 7,
        TypeTag::Function => 8,
        TypeTag::Macro => 9,
        TypeTag::Atom => 10,
    }
}

/// The number of a host operation.
pub open spec fn builtin_code(f: Builtin) -> u64 {
    match f {
        Builtin::Add => 0,
        Builtin::Sub => 1,
        Builtin::Mul => 2,
        Builtin::Div => 3,
        Builtin::Rem => 4,
        Builtin::Eq => 5,
        Builtin::Lt => 6,
        Builtin::Le => 7,
        Builtin::Gt => 8,
        Builtin::Ge => 9,
        Builtin::Not => 10,
        Builtin::Type => 11,
        Builtin::TypeIs(t) => (100 + tag_code(t)) as u64,
        Builtin::List => 12,
        Builtin::First => 13,
        Builtin::Last => 14,
        Builtin::Rest => 15,
        Builtin::Nth => 16,
        Builtin::Count => 17,
        Builtin::Cons => 18,
        Builtin::MapOver => 19,
        Builtin::Assoc => 20,
        Builtin::Dissoc => 21,
        Builtin::Get => 22,
        Builtin::Keys => 23,
        Builtin::Values => 24,
        Builtin::Contains => 25,
        Builtin::Str => 26,
        Builtin::Symbol => 27,
        Builtin::Int => 28,
        Builtin::Chr => 29,
        Builtin::Findall => 30,
        Builtin::Print => 31,
        Builtin::Input => 32,
        Builtin::Apply => 33,
        Builtin::Eval => 34,
        Builtin::Macro => 35,
        Builtin::Atom => 36,
        Builtin::SetAtom => 37,
        Builtin::InspectAtom => 38,
        Builtin::Doc => 39,
        Builtin::Help => 40,
        Builtin::Quit => 41,
    }
}

/// The number of a truth value.
pub open spec fn flag_code(b: bool) -> u64 {
    if b {
        1
    } else {
        0
    }
}

/// The hash of a value. A table counts with the sum of the hashes of its
/// entries, whose order is not part of the table; a lambda with its
/// pattern, its body and its macro flag; an atom with nothing but its kind.
pub open spec fn hash_of(v: Val) -> u64
    decreases v, 0nat,
{
    match v {
        Val::Int(i) => mix(1, i as u32 as u64),
        Val::Str(s) => mix(2, hash_chars(s)),
        Val::Symbol(s) => mix(3, hash_chars(s)),
        Val::List(items) => mix(4, hash_items(items)),
        Val::Table(entries) => mix(5, hash_entries(entries)),
        Val::Function { fn_ref, is_macro } => mix(mix(6, builtin_code(fn_ref)), flag_code(is_macro)),
        Val::Lambda { args, body, captures, is_macro } => mix(
            mix(mix(7, hash_of(*args)), hash_of(*body)),
            flag_code(is_macro),
        ),
        Val::Atom(_) => mix(8, 0),
    }
}

/// The hash of the items of a list, in their order.
pub open spec fn hash_items(items: Seq<Val>) -> u64
    decreases items, 1nat,
{
    if items.len() == 0 {
        14695981039346656037
    } else {
        mix(hash_items(items.drop_last()), hash_of(items.last()))
    }
}

/// The hash of one entry of a table.
pub open spec fn entry_hash(e: (Val, Val)) -> u64
    decreases e, 0nat,
{
    mix(hash_of(e.0), hash_of(e.1))
}

/// The sum of the hashes of the entries of a table, wrapping on overflow.
pub open spec fn hash_entries(entries: Seq<(Val, Val)>) -> u64
    decreases entries, 1nat,
{
    if entries.len() == 0 {
        0
    } else {
        hash_entries(entries.drop_last()).wrapping_add(entry_hash(entries.last()))
    }
}

/// One more entry adds its hash to the sum.
proof fn lemma_sum_step(entries: Seq<(Val, Val)>, i: int)
    requires
        0 <= i < entries.len(),
    ensures
        hash_entries(entries.take(i + 1)) == hash_entries(entries.take(i)).wrapping_add(
            entry_hash(entries[i]),
        ),
{
    assert(entries.take(i + 1).drop_last() == entries.take(i));
    assert(entries.take(i + 1).last() == entries[i]);
}

/// The sum of the hashes is that of the other entries and the hash of any
/// one entry.
proof fn lemma_sum_without(entries: Seq<(Val, Val)>, j: int)
    requires
        0 <= j < entries.len(),
    ensures
        hash_entries(entries) == hash_entries(entries.remove(j)).wrapping_add(
            entry_hash(entries[j]),
        ),
    decreases entries.len(),
{
    let n = entries.len() as int;
    if j == n - 1 {
        assert(entries.remove(j) =~= entries.drop_last());
    } else {
        lemma_sum_without(entries.drop_last(), j);
        let rest = entries.remove(j);
        assert(rest.drop_last() =~= entries.drop_last().remove(j));
        assert(rest.last() == entries.last());
        assert(entries.drop_last()[j] == entries[j]);
    }
}

/// Entries that are matched one to one, with equal hashes, have the same
/// sum of hashes.
proof fn lemma_sum_matched(x: Seq<(Val, Val)>, y: Seq<(Val, Val)>, f: Seq<int>)
    requires
        f.len() == x.len(),
        x.len() == y.len(),
        forall|i: int| 0 <= i < f.len() ==> 0 <= #[trigger] f[i] < y.len(),
        f.no_duplicates(),
        forall|i: int| 0 <= i < f.len() ==> entry_hash(x[i]) == entry_hash(y[#[trigger] f[i]]),
    ensures
        hash_entries(x) == hash_entries(y),
    decreases x.len(),
{
    let n = x.len() as int;
    if n > 0 {
        let j = f[n - 1];
        let fewer = y.remove(j);
        let g = Seq::new(
            (n - 1) as nat,
            |i: int|
                if f[i] < j {
                    f[i]
                } else {
                    f[i] - 1
                },
        );
        assert forall|i: int| 0 <= i < g.len() implies 0 <= #[trigger] g[i] < fewer.len()
            && entry_hash(x.drop_last()[i]) == entry_hash(fewer[g[i]]) by {
            assert(f[i] != f[n - 1]);
            assert(0 <= f[i] < y.len());
            assert(entry_hash(x[i]) == entry_hash(y[f[i]]));
        }
        assert forall|a: int, b: int| 0 <= a < g.len() && 0 <= b < g.len() && a != b implies g[a]
            != g[b] by {
            assert(f[a] != f[b]);
            assert(f[a] != j);
            assert(f[b] != j);
        }
        lemma_sum_matched(x.drop_last(), fewer, g);
        lemma_sum_without(y, j);
        assert(entry_hash(x[n - 1]) == entry_hash(y[f[n - 1]]));
    }
}

/// Lists that are equal item by item hash alike.
proof fn lemma_hash_items(a: Seq<Val>, b: Seq<Val>)
    requires
        a.len() == b.len(),
        forall|i: int| 0 <= i < a.len() ==> val_eq(a[i], #[trigger] b[i]),
        forall|i: int| 0 <= i < a.len() ==> well_formed(#[trigger] a[i]),
        forall|i: int| 0 <= i < b.len() ==> well_formed(#[trigger] b[i]),
    ensures
        hash_items(a) == hash_items(b),
    decreases a, 1nat,
{
    if a.len() > 0 {
        assert forall|i: int| 0 <= i < a.drop_last().len() implies val_eq(
            a.drop_last()[i],
            #[trigger] b.drop_last()[i],
        ) by {
            assert(val_eq(a[i], b[i]));
        }
        assert forall|i: int| 0 <= i < a.drop_last().len() implies well_formed(
            #[trigger] a.drop_last()[i],
        ) by {
            assert(well_formed(a[i]));
        }
        assert forall|i: int| 0 <= i < b.drop_last().len() implies well_formed(
            #[trigger] b.drop_last()[i],
        ) by {
            assert(well_formed(b[i]));
        }
        assert(well_formed(a[a.len() - 1]));
        assert(well_formed(b[b.len() - 1]));
        lemma_hash_items(a.drop_last(), b.drop_last());
        assert(val_eq(a[a.len() - 1], b[a.len() - 1]));
        law_equal_values_hash_alike(a.last(), b.last());
    }
}

/// Valid values that are equal hash alike.
pub proof fn law_equal_values_hash_alike(a: Val, b: Val)
    requires
        val_eq(a, b),
        well_formed(a),
        well_formed(b),
    ensures
        hash_of(a) == hash_of(b),
    decreases a, 0nat,
{
    match a {
        Val::List(x) => {
            lemma_hash_items(x, b->List_0);
        },
        Val::Table(x) => {
            let y = b->Table_0;
            let f = lemma_table_matching(x, y);
            assert forall|i: int| 0 <= i < f.len() implies entry_hash(x[i]) == entry_hash(
                y[#[trigger] f[i]],
            ) by {
                assert(well_formed(x[i].0));
                assert(well_formed(y[f[i]].0));
                assert(entry_eq(x[i], y[f[i]]));
                law_equal_values_hash_alike(x[i].0, y[f[i]].0);
                law_equal_values_hash_alike(x[i].1, y[f[i]].1);
            }
            lemma_sum_matched(x, y, f);
        },
        Val::Lambda { args, body, captures, is_macro } => {
            law_equal_values_hash_alike(*args, *b->Lambda_args);
            law_equal_values_hash_alike(*body, *b->Lambda_body);
        },
        _ => {},
    }
}

fn mix_in(h: u64, x: u64) -> (r: u64)
    ensures
        r == mix(h, x),
{
    reveal(mix);
    h.wrapping_mul(1099511628211).wrapping_add(x)
}

fn hash_text(s: &str) -> (r: u64)
    ensures
        r == hash_chars(s@),
{
    let chars = to_chars(s);
    let mut h: u64 = 14695981039346656037;
    let mut i: usize = 0;
    while i < chars.len()
        invariant
            i <= chars.len(),
            chars@ == s@,
            h == hash_chars(chars@.take(i as int)),
        decreases chars.len() - i,
    {
        h = mix_in(h, chars[i] as u64);
        i += 1;
        assert(chars@.take(i as int).drop_last() == chars@.take(i - 1));
    }
    assert(chars@.take(i as int) == chars@);
    h
}

fn code_of_tag(t: TypeTag) -> (r: u64)
    ensures
        r == tag_code(t),
{
    match t {
        TypeTag::Int => 0,
        TypeTag::String => 1,
        TypeTag::Symbol => 2,
        TypeTag::Bool => 3,
        TypeTag::Nil => 4,
        TypeTag::List => 5,
        TypeTag::Error => 6,
        TypeTag::Table => 7,
        TypeTag::Function => 8,
        TypeTag::Macro => 9,
        TypeTag::Atom => 10,
    }
}

fn code_of(f: Builtin) -> (r: u64)
    ensures
        r == builtin_code(f),
{
    match f {
        Builtin::Add => 0,
        Builtin::Sub => 1,
        Builtin::Mul => 2,
        Builtin::Div => 3,
        Builtin::Rem => 4,
        Builtin::Eq => 5,
        Builtin::Lt => 6,
        Builtin::Le => 7,
        Builtin::Gt => 8,
        Builtin::Ge => 9,
        Builtin::Not => 10,
        Builtin::Type => 11,
        Builtin::TypeIs(t) => 100 + code_of_tag(t),
        Builtin::List => 12,
        Builtin::First => 13,
        Builtin::Last => 14,
        Builtin::Rest => 15,
        Builtin::Nth => 16,
        Builtin::Count => 17,
        Builtin::Cons => 18,
        Builtin::MapOver => 19,
        Builtin::Assoc => 20,
        Builtin::Dissoc => 21,
        Builtin::Get => 22,
        Builtin::Keys => 23,
        Builtin::Values => 24,
        Builtin::Contains => 25,
        Builtin::Str => 26,
        Builtin::Symbol => 27,
        Builtin::Int => 28,
        Builtin::Chr => 29,
        Builtin::Findall => 30,
        Builtin::Print => 31,
        Builtin::Input => 32,
        Builtin::Apply => 33,
        Builtin::Eval => 34,
        Builtin::Macro => 35,
        Builtin::Atom => 36,
        Builtin::SetAtom => 37,
        Builtin::InspectAtom => 38,
        Builtin::Doc => 39,
        Builtin::Help => 40,
        Builtin::Quit => 41,
    }
}

impl Value {
    /// The hash of the value. Values that are equal have the same hash.
    pub fn hash(&self) -> (r: u64)
        ensures
            r == hash_of(self@),
        decreases self,
    {
        match self {
            Value::Int(i) => mix_in(1, *i as u32 as u64),
            Value::String(s) => mix_in(2, hash_text(s.as_str())),
            Value::Symbol(s) => mix_in(3, hash_text(s.as_str())),
            Value::List(l) => {
                let mut h: u64 = 14695981039346656037;
                let mut i: usize = 0;
                while i < l.len()
                    invariant
                        i <= l.len(),
                        self is List,
                        self->List_0 == *l,
                        h == hash_items(self@->List_0.take(i as int)),
                    decreases l.len() - i,
                {
                    assert(decreases_to!(self => self->List_0@[i as int]));
                    let item = l[i].hash();
                    h = mix_in(h, item);
                    proof {
                        let items = self@->List_0;
                        assert(items.take(i + 1).drop_last() == items.take(i as int));
                        assert(items.take(i + 1).last() == l@[i as int]@);
                    }
                    i += 1;
                }
                assert(self@->List_0.take(i as int) == self@->List_0);
                mix_in(4, h)
            },
            Value::Table(t) => {
                let mut sum: u64 = 0;
                let mut i: usize = 0;
                while i < t.len()
                    invariant
                        i <= t.len(),
                        self is Table,
                        self->Table_0 == *t,
                        sum == hash_entries(self@->Table_0.take(i as int)),
                    decreases t.len() - i,
                {
                    assert(decreases_to!(self => self->Table_0@[i as int].0));
                    assert(decreases_to!(self => self->Table_0@[i as int].1));
                    let k = t[i].0.hash();
                    let v = t[i].1.hash();
                    proof {
                        let e = self@->Table_0[i as int];
                        assert(e == (t@[i as int].0@, t@[i as int].1@));
                        assert(entry_hash(e) == mix(k, v));
                        lemma_sum_step(self@->Table_0, i as int);
                    }
                    sum = sum.wrapping_add(mix_in(k, v));
                    i += 1;
                }
                assert(self@->Table_0.take(i as int) == self@->Table_0);
                mix_in(5, sum)
            },
            Value::Function { fn_ref, is_macro } => mix_in(
                mix_in(6, code_of(*fn_ref)),
                if *is_macro {
                    1
                } else {
                    0
                },
            ),
            Value::Lambda { args, body, captures, is_macro } => {
                let a = (&**args).hash();
                let b = (&**body).hash();
                mix_in(
                    mix_in(mix_in(7, a), b),
                    if *is_macro {
                        1
                    } else {
                        0
                    },
                )
            },
            Value::Atom(_) => mix_in(8, 0),
        }
    }
}

} // verus!
