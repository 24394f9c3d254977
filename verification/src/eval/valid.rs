//! Validity is kept: where the expression and the state hold no table with
//! two equal keys, neither does what evaluation gives.

use vstd::prelude::*;
use crate::env::World;
use crate::eval::builtins::{
    add_spec, arith_step, as_macro_spec, assoc_spec, chr_spec, cons_spec, contains_spec,
    count_spec, dissoc_spec, div_spec, entry_keys, entry_values, eq_spec, failure_name,
    findall_spec, first_spec, fold_ints, get_spec, keys_spec, last_spec, list_spec, match_rows,
    mul_spec, not_spec, nth_spec, overflow_note, present_groups, regex_search, relation_spec,
    rem_spec, rest_spec, str_spec, sub_spec, symbol_spec, tag_name, tail, to_int_spec, typ_spec,
    type_is_spec, values_spec, ArithOp, RegexFailureV, Relation,
};
use crate::eval::model::{
    apply_builtin_spec, apply_spec, atom_spec, bind_all, builtin_spec, char_strings,
    destructure_items, destructure_spec, doc_spec, eval_builtin_spec, eval_entries, eval_seq,
    eval_spec, help_spec, input_spec, inspect_atom_spec, map_items, map_spec, print_spec,
    quasi_items, quasi_spec, quit_spec, scan_catch, set_atom_spec, step_call, step_cons,
    step_def, step_do, step_err, step_if, step_lambda, step_let, step_list, step_quasiquote,
    step_quote, step_spec, step_try, Many, Outcome, StepV, Stepped,
};
use crate::equality::{law_tables_stay_valid, well_formed};
use crate::table::{find_key, lemma_find_key};
use crate::text::{decimal, read_i32};
use crate::types::{error_val, val_eq, Builtin, Val};

verus! {

/// Whether every value of a sequence is valid.
pub open spec fn all_valid(s: Seq<Val>) -> bool {
    forall|i: int| 0 <= i < s.len() ==> well_formed(#[trigger] s[i])
}

/// Whether a result is valid, be it a value or an error.
pub open spec fn valid_result(r: Result<Val, Val>) -> bool {
    match r {
        Ok(v) => well_formed(v),
        Err(e) => well_formed(e),
    }
}

/// Whether a state is valid: every value that a frame binds or an atom
/// holds is.
pub open spec fn valid_world(w: World) -> bool {
    &&& forall|i: int, k: Seq<char>|
        0 <= i < w.frames.len() && w.frames[i].vars.contains_key(k) ==> well_formed(
            #[trigger] w.frames[i].vars[k],
        )
    &&& all_valid(w.atoms)
}

/// Whether an outcome is valid.
pub open spec fn valid(o: Outcome) -> bool {
    valid_world(o.world) && valid_result(o.result)
}

/// Whether the outcome of several evaluations is valid.
pub open spec fn valid_many(m: Many) -> bool {
    &&& valid_world(m.world)
    &&& match m.result {
        Ok(vs) => all_valid(vs),
        Err(e) => well_formed(e),
    }
}

/// Whether a step is valid: what it gives and what it leaves to evaluate.
pub open spec fn valid_step(s: Stepped) -> bool {
    &&& valid_world(s.world)
    &&& match s.step {
        StepV::Done(r) => valid_result(r),
        StepV::Tail { syn, env } => well_formed(syn),
        StepV::Cons { head, syn, env } => well_formed(head) && well_formed(syn),
    }
}

/// An error with a valid context is valid.
pub proof fn lemma_error_valid(kind: Seq<char>, context: Seq<Val>)
    requires
        all_valid(context),
    ensures
        well_formed(error_val(kind, context)),
{
    let items = seq![Val::Symbol("err"@), Val::Symbol(kind)] + context;
    assert forall|i: int| 0 <= i < items.len() implies well_formed(#[trigger] items[i]) by {
        if i >= 2 {
            assert(items[i] == context[i - 2]);
        }
    }
}

/// The errors that the operations make of their arguments are valid.
pub proof fn lemma_usual_errors(args: Seq<Val>)
    requires
        all_valid(args),
    ensures
        forall|kind: Seq<char>| well_formed(#[trigger] error_val(kind, args)),
        forall|kind: Seq<char>| well_formed(#[trigger] error_val(kind, Seq::empty())),
        forall|kind: Seq<char>|
            well_formed(#[trigger] error_val(kind, Seq::empty().push(Val::List(args)))),
        forall|kind: Seq<char>, i: int|
            0 <= i < args.len() ==> well_formed(
                #[trigger] error_val(kind, Seq::empty().push(args[i])),
            ),
        forall|kind: Seq<char>, i: int, j: int|
            0 <= i < args.len() && 0 <= j < args.len() ==> well_formed(
                #[trigger] error_val(kind, Seq::empty().push(args[i]).push(args[j])),
            ),
{
    assert forall|kind: Seq<char>| well_formed(#[trigger] error_val(kind, args)) by {
        lemma_error_valid(kind, args);
    }
    assert forall|kind: Seq<char>| well_formed(#[trigger] error_val(kind, Seq::empty())) by {
        lemma_error_valid(kind, Seq::empty());
    }
    assert forall|kind: Seq<char>|
        well_formed(#[trigger] error_val(kind, Seq::empty().push(Val::List(args)))) by {
        lemma_error_valid(kind, Seq::empty().push(Val::List(args)));
    }
    assert forall|kind: Seq<char>, i: int| 0 <= i < args.len() implies well_formed(
        #[trigger] error_val(kind, Seq::empty().push(args[i])),
    ) by {
        lemma_error_valid(kind, Seq::empty().push(args[i]));
    }
    assert forall|kind: Seq<char>, i: int, j: int|
        0 <= i < args.len() && 0 <= j < args.len() implies well_formed(
        #[trigger] error_val(kind, Seq::empty().push(args[i]).push(args[j])),
    ) by {
        lemma_error_valid(kind, Seq::empty().push(args[i]).push(args[j]));
    }
}

proof fn lemma_fold_valid(op: ArithOp, args: Seq<Val>, i: int, acc: i32)
    requires
        all_valid(args),
    ensures
        valid_result(fold_ints(op, args, i, acc)),
    decreases args.len() - i,
{
    lemma_usual_errors(args);
    if 0 <= i < args.len() {
        match args[i] {
            Val::Int(x) => {
                lemma_fold_valid(op, args, i + 1, arith_step(op, acc, x));
            },
            _ => {},
        }
    }
}

/// Arithmetic, comparison and the operations on types give valid results.
pub proof fn lemma_numbers_valid(args: Seq<Val>)
    requires
        all_valid(args),
    ensures
        valid_result(add_spec(args)),
        valid_result(sub_spec(args)),
        valid_result(mul_spec(args)),
        valid_result(div_spec(args)),
        valid_result(rem_spec(args)),
        valid_result(eq_spec(args)),
        forall|rel: Relation| valid_result(#[trigger] relation_spec(rel, args)),
        valid_result(not_spec(args)),
        valid_result(typ_spec(args)),
        forall|name: Seq<char>| valid_result(#[trigger] type_is_spec(name, args)),
        valid_result(symbol_spec(args)),
        valid_result(to_int_spec(args)),
        valid_result(chr_spec(args)),
        valid_result(str_spec(args)),
        valid_result(as_macro_spec(args)),
{
    lemma_usual_errors(args);
    lemma_fold_valid(ArithOp::Plus, args, 0, 0);
    lemma_fold_valid(ArithOp::Minus, args, 0, 0);
    lemma_fold_valid(ArithOp::Times, args, 0, 1);
    if args.len() == 1 {
        match args[0] {
            Val::Str(s) => {
                match read_i32(s) {
                    Err(f) => {
                        lemma_error_valid(
                            "ParseError"@,
                            seq![args[0], Val::Symbol(failure_name(f))],
                        );
                    },
                    Ok(_) => {},
                }
            },
            _ => {},
        }
    }
}

/// The operations on sequences give valid results.
pub proof fn lemma_sequences_valid(args: Seq<Val>)
    requires
        all_valid(args),
    ensures
        valid_result(list_spec(args)),
        valid_result(first_spec(args)),
        valid_result(last_spec(args)),
        valid_result(rest_spec(args)),
        valid_result(nth_spec(args)),
        valid_result(count_spec(args)),
        valid_result(cons_spec(args)),
{
    lemma_usual_errors(args);
    if args.len() >= 1 {
        assert(well_formed(args[0]));
        match args[0] {
            Val::List(l) => {
                let rest = tail(l);
                assert forall|i: int| 0 <= i < rest.len() implies well_formed(
                    #[trigger] rest[i],
                ) by {
                    assert(rest[i] == l[i + 1]);
                }
                if l.len() > 0 {
                    assert(well_formed(l[0]));
                    assert(well_formed(l[l.len() - 1]));
                }
                if args.len() == 2 && args[1] is Int {
                    let i = args[1]->Int_0 as int;
                    if 0 <= i < l.len() {
                        assert(well_formed(l[i]));
                    }
                }
            },
            _ => {},
        }
        if args.len() == 1 {
            let n: nat = match args[0] {
                Val::List(l) => l.len(),
                Val::Str(s) => s.len(),
                Val::Table(t) => t.len(),
                _ => 0,
            };
            lemma_error_valid(
                "Overflow"@,
                seq![
                    Val::Str(decimal(n as int)),
                    Val::Str(overflow_note()),
                ],
            );
            lemma_error_valid("NotASequence"@, seq![args[0]]);
            assert(valid_result(count_spec(args)));
        }
        if args.len() == 2 {
            assert(well_formed(args[1]));
            lemma_error_valid("NotANumber"@, seq![args[1]]);
            lemma_error_valid("InvalidIndex"@, seq![args[0], args[1]]);
            lemma_error_valid("NotAList"@, seq![args[0]]);
            assert(valid_result(nth_spec(args)));
        }
    }
    if args.len() == 2 && args[1] is List {
        assert(well_formed(args[1]));
        let l = args[1]->List_0;
        let all = seq![args[0]] + l;
        assert forall|i: int| 0 <= i < all.len() implies well_formed(#[trigger] all[i]) by {
            if i > 0 {
                assert(all[i] == l[i - 1]);
            }
        }
    }
}

proof fn lemma_groups_valid(m: Seq<Option<Seq<char>>>)
    ensures
        all_valid(present_groups(m)),
    decreases m.len(),
{
    if m.len() > 0 {
        lemma_groups_valid(m.drop_last());
        let before = present_groups(m.drop_last());
        let all = present_groups(m);
        assert forall|i: int| 0 <= i < all.len() implies well_formed(#[trigger] all[i]) by {
            if i < before.len() {
                assert(all[i] == before[i]);
            }
        }
    }
}

proof fn lemma_rows_valid(ms: Seq<Seq<Option<Seq<char>>>>)
    ensures
        all_valid(match_rows(ms)),
    decreases ms.len(),
{
    if ms.len() > 0 {
        lemma_rows_valid(ms.drop_last());
        lemma_groups_valid(ms.last());
        let before = match_rows(ms.drop_last());
        let all = match_rows(ms);
        assert forall|i: int| 0 <= i < all.len() implies well_formed(#[trigger] all[i]) by {
            if i < before.len() {
                assert(all[i] == before[i]);
            }
        }
    }
}

/// The operations on tables and `findall` give valid results.
pub proof fn lemma_tables_valid(args: Seq<Val>)
    requires
        all_valid(args),
    ensures
        valid_result(assoc_spec(args)),
        valid_result(dissoc_spec(args)),
        valid_result(get_spec(args)),
        valid_result(keys_spec(args)),
        valid_result(values_spec(args)),
        valid_result(contains_spec(args)),
        valid_result(findall_spec(args)),
{
    lemma_usual_errors(args);
    law_tables_stay_valid(args);
    if args.len() >= 1 {
        assert(well_formed(args[0]));
        match args[0] {
            Val::Table(t) => {
                let ks = entry_keys(t);
                let vs = entry_values(t);
                assert forall|i: int| 0 <= i < ks.len() implies well_formed(#[trigger] ks[i]) by {
                    assert(well_formed(t[i].0));
                }
                assert forall|i: int| 0 <= i < vs.len() implies well_formed(#[trigger] vs[i]) by {
                    assert(well_formed(t[i].0));
                }
                if args.len() == 2 {
                    lemma_find_key(t, args[1], 0);
                    match find_key(t, args[1], 0) {
                        Some(i) => {
                            assert(well_formed(t[i].0));
                        },
                        None => {},
                    }
                }
            },
            _ => {},
        }
    }
    if args.len() == 2 && args[0] is Str && args[1] is Str {
        match regex_search(args[0]->Str_0, args[1]->Str_0) {
            Ok(ms) => {
                lemma_rows_valid(ms);
            },
            Err(RegexFailureV::TooBig(n)) => {
                lemma_error_valid(
                    "RegexTooLong"@,
                    seq![
                        if n <= i32::MAX {
                            Val::Int(n as i32)
                        } else {
                            Val::Str(decimal(n as int))
                        },
                    ],
                );
            },
            Err(RegexFailureV::Syntax(msg)) => {
                lemma_error_valid("InvalidRegex"@, seq![Val::Str(msg)]);
            },
            Err(RegexFailureV::Other) => {},
        }
    }
}

/// What a name is bound to in a valid state is valid.
pub proof fn lemma_lookup_valid(w: World, env: nat, k: Seq<char>)
    requires
        valid_world(w),
    ensures
        w.lookup(env, k) matches Some(v) ==> well_formed(v),
    decreases env,
{
    if env < w.frames.len() {
        let frame = w.frames[env as int];
        if frame.vars.contains_key(k) {
            assert(well_formed(w.frames[env as int].vars[k]));
        } else {
            match frame.parent {
                Some(p) => {
                    if p < env {
                        lemma_lookup_valid(w, p, k);
                    }
                },
                None => {},
            }
        }
    }
}

/// Binding a valid value keeps the state valid.
pub proof fn lemma_bind_valid(w: World, env: nat, k: Seq<char>, v: Val)
    requires
        valid_world(w),
        well_formed(v),
    ensures
        valid_world(w.bind(env, k, v)),
{
    let after = w.bind(env, k, v);
    assert forall|i: int, name: Seq<char>|
        0 <= i < after.frames.len() && after.frames[i].vars.contains_key(name) implies well_formed(
        #[trigger] after.frames[i].vars[name],
    ) by {
        if i == env && name == k {
        } else {
            assert(w.frames[i].vars.contains_key(name));
            assert(after.frames[i].vars[name] == w.frames[i].vars[name]);
        }
    }
}

/// A new frame keeps the state valid.
pub proof fn lemma_push_frame_valid(w: World, parent: nat)
    requires
        valid_world(w),
    ensures
        valid_world(w.push_frame(parent)),
{
    let after = w.push_frame(parent);
    assert forall|i: int, name: Seq<char>|
        0 <= i < after.frames.len() && after.frames[i].vars.contains_key(name) implies well_formed(
        #[trigger] after.frames[i].vars[name],
    ) by {
        if i < w.frames.len() {
            assert(after.frames[i] == w.frames[i]);
            assert(well_formed(w.frames[i].vars[name]));
        }
    }
}

/// Changing nothing but the documentation, the input, the output or the
/// wish to stop keeps the state valid.
pub proof fn lemma_same_values(w: World, after: World)
    requires
        valid_world(w),
        after.frames == w.frames,
        after.atoms == w.atoms,
    ensures
        valid_world(after),
{
    assert forall|i: int, name: Seq<char>|
        0 <= i < after.frames.len() && after.frames[i].vars.contains_key(name) implies well_formed(
        #[trigger] after.frames[i].vars[name],
    ) by {
        assert(well_formed(w.frames[i].vars[name]));
    }
}

/// Binding a pattern to a valid value keeps the state valid.
pub proof fn lemma_destructure_valid(pat: Val, v: Val, env: nat, w: World)
    requires
        valid_world(w),
        well_formed(v),
    ensures
        valid_world(destructure_spec(pat, v, env, w).1),
    decreases pat, 0nat,
{
    match pat {
        Val::Symbol(s) => {
            lemma_bind_valid(w, env, s, v);
        },
        Val::List(ps) => match v {
            Val::List(vs) => {
                if ps.len() <= vs.len() {
                    lemma_destructure_items_valid(ps, vs, 0, env, w);
                }
            },
            _ => {},
        },
        _ => {},
    }
}

/// Binding several patterns to valid values keeps the state valid.
pub proof fn lemma_destructure_items_valid(ps: Seq<Val>, vs: Seq<Val>, i: int, env: nat, w: World)
    requires
        valid_world(w),
        all_valid(vs),
        ps.len() <= vs.len(),
    ensures
        valid_world(destructure_items(ps, vs, i, env, w).1),
    decreases ps, ps.len() - i,
{
    if 0 <= i < ps.len() {
        assert(well_formed(vs[i]));
        lemma_destructure_valid(ps[i], vs[i], env, w);
        let r = destructure_spec(ps[i], vs[i], env, w);
        if r.0 {
            lemma_destructure_items_valid(ps, vs, i + 1, env, r.1);
        }
    }
}

/// The operations on atoms, documentation, input and output keep validity.
pub proof fn lemma_state_valid(args: Seq<Val>, w: World)
    requires
        valid_world(w),
        all_valid(args),
    ensures
        valid(atom_spec(args, w)),
        valid(set_atom_spec(args, w)),
        valid(print_spec(args, w)),
        valid(input_spec(args, w)),
        valid(doc_spec(args, w)),
        valid(help_spec(args, w)),
        valid(quit_spec(args, w)),
{
    lemma_usual_errors(args);
    lemma_same_values(w, print_spec(args, w).world);
    lemma_same_values(w, input_spec(args, w).world);
    lemma_same_values(w, doc_spec(args, w).world);
    lemma_same_values(w, quit_spec(args, w).world);
    if args.len() == 1 {
        let after = w.push_atom(args[0]);
        assert forall|i: int| 0 <= i < after.atoms.len() implies well_formed(
            #[trigger] after.atoms[i],
        ) by {
            if i < w.atoms.len() {
                assert(after.atoms[i] == w.atoms[i]);
            }
        }
        lemma_frames_kept(w, after);
    }
    if args.len() == 2 && args[0] is Atom && args[0]->Atom_0 < w.atoms.len() {
        let a = args[0]->Atom_0;
        lemma_set_atom_valid(w, a, args[1]);
        assert(well_formed(w.atoms[a as int]));
    }
}

/// A state with the same frames as a valid one binds valid values.
proof fn lemma_frames_kept(w: World, after: World)
    requires
        valid_world(w),
        after.frames == w.frames,
        all_valid(after.atoms),
    ensures
        valid_world(after),
{
    assert forall|i: int, name: Seq<char>|
        0 <= i < after.frames.len() && after.frames[i].vars.contains_key(name) implies well_formed(
        #[trigger] after.frames[i].vars[name],
    ) by {
        assert(well_formed(w.frames[i].vars[name]));
    }
}

/// Storing a valid value in an atom keeps the state valid.
pub proof fn lemma_set_atom_valid(w: World, a: nat, v: Val)
    requires
        valid_world(w),
        well_formed(v),
    ensures
        valid_world(w.set_atom(a, v)),
{
    let after = w.set_atom(a, v);
    assert forall|i: int| 0 <= i < after.atoms.len() implies well_formed(
        #[trigger] after.atoms[i],
    ) by {
        if i != a {
            assert(after.atoms[i] == w.atoms[i]);
        }
    }
    lemma_frames_kept(w, after);
}

/// Looking for a catch clause keeps validity.
pub proof fn lemma_scan_catch_valid(items: Seq<Val>, i: int, e: Val, env: nat, w: World)
    requires
        valid_world(w),
        all_valid(items),
        well_formed(e),
    ensures
        valid_step(scan_catch(items, i, e, env, w)),
    decreases items.len() - i,
{
    lemma_usual_errors(items);
    if 0 <= i < items.len() {
        assert(well_formed(items[i]));
        match items[i] {
            Val::List(l) => {
                if !(l.len() < 3 || l[0] != Val::Symbol("catch*"@) || !(l[1] is Symbol)) {
                    let child = w.frames.len();
                    lemma_push_frame_valid(w, env);
                    assert(well_formed(l[2]));
                    if l.len() == 3 {
                        lemma_bind_valid(w.push_frame(env), child, l[1]->Symbol_0, e);
                    } else if l.len() == 4 && l[2] is Symbol {
                        assert(well_formed(l[3]));
                        lemma_bind_valid(w.push_frame(env), child, l[2]->Symbol_0, e);
                        lemma_scan_catch_valid(items, i + 1, e, env, w);
                    }
                }
            },
            _ => {},
        }
    }
}

/// Evaluation keeps validity.
pub proof fn lemma_eval_valid(syn: Val, env: nat, w: World, fuel: nat)
    requires
        valid_world(w),
        well_formed(syn),
    ensures
        valid(eval_spec(syn, env, w, fuel)),
    decreases fuel, 0nat, Val::Int(0), 0nat,
{
    lemma_error_valid("StepLimit"@, seq![]);
    if fuel > 0 {
        let f = (fuel - 1) as nat;
        lemma_step_valid(syn, env, w, f);
        let s = step_spec(syn, env, w, f);
        match s.step {
            StepV::Done(_) => {},
            StepV::Tail { syn: next, env: e } => {
                lemma_eval_valid(next, e, s.world, f);
            },
            StepV::Cons { head, syn: next, env: e } => {
                lemma_eval_valid(next, e, s.world, f);
                let o = eval_spec(next, e, s.world, f);
                match o.result {
                    Ok(Val::List(l)) => {
                        let all = seq![head] + l;
                        assert forall|i: int| 0 <= i < all.len() implies well_formed(
                            #[trigger] all[i],
                        ) by {
                            if i > 0 {
                                assert(all[i] == l[i - 1]);
                            }
                        }
                    },
                    Ok(other) => {
                        lemma_error_valid("NotAList"@, seq![other]);
                    },
                    Err(_) => {},
                }
            },
        }
    }
}

/// The evaluation of several expressions keeps validity.
pub proof fn lemma_eval_seq_valid(items: Seq<Val>, i: int, acc: Seq<Val>, env: nat, w: World, fuel: nat)
    requires
        valid_world(w),
        all_valid(items),
        all_valid(acc),
    ensures
        valid_many(eval_seq(items, i, acc, env, w, fuel)),
    decreases fuel, 1nat, Val::Int(0), items.len() - i,
{
    if 0 <= i < items.len() {
        assert(well_formed(items[i]));
        lemma_eval_valid(items[i], env, w, fuel);
        let o = eval_spec(items[i], env, w, fuel);
        match o.result {
            Ok(v) => {
                let more = acc.push(v);
                assert forall|j: int| 0 <= j < more.len() implies well_formed(
                    #[trigger] more[j],
                ) by {
                    if j < acc.len() {
                        assert(more[j] == acc[j]);
                    }
                }
                lemma_eval_seq_valid(items, i + 1, more, env, o.world, fuel);
            },
            Err(_) => {},
        }
    }
}

/// The evaluation of a table literal keeps validity.
pub proof fn lemma_eval_entries_valid(
    entries: Seq<(Val, Val)>,
    i: int,
    acc: Seq<(Val, Val)>,
    env: nat,
    w: World,
    fuel: nat,
)
    requires
        valid_world(w),
        well_formed(Val::Table(entries)),
        0 <= i <= entries.len(),
        acc.len() == i,
        forall|j: int| 0 <= j < i ==> (#[trigger] acc[j]).0 == entries[j].0 && well_formed(acc[j].1),
    ensures
        valid(eval_entries(entries, i, acc, env, w, fuel)),
    decreases fuel, 1nat, Val::Int(0), entries.len() - i,
{
    if i < entries.len() {
        assert(well_formed(entries[i].0));
        lemma_eval_valid(entries[i].1, env, w, fuel);
        let o = eval_spec(entries[i].1, env, w, fuel);
        match o.result {
            Ok(v) => {
                lemma_eval_entries_valid(
                    entries,
                    i + 1,
                    acc.push((entries[i].0, v)),
                    env,
                    o.world,
                    fuel,
                );
            },
            Err(_) => {},
        }
    } else {
        assert forall|a: int, b: int| 0 <= a < b < acc.len() implies !val_eq(
            (#[trigger] acc[a]).0,
            (#[trigger] acc[b]).0,
        ) by {
            assert(acc[a].0 == entries[a].0);
            assert(acc[b].0 == entries[b].0);
        }
        assert forall|j: int| 0 <= j < acc.len() implies well_formed((#[trigger] acc[j]).0)
            && well_formed(acc[j].1) by {
            assert(acc[j].0 == entries[j].0);
            assert(well_formed(entries[j].0));
        }
    }
}

/// Filling in a template keeps validity.
pub proof fn lemma_quasi_valid(x: Val, env: nat, w: World, fuel: nat)
    requires
        valid_world(w),
        well_formed(x),
    ensures
        valid(quasi_spec(x, env, w, fuel)),
    decreases fuel, 2nat, x, (if x is List {
        x->List_0.len() + 1
    } else {
        0
    }),
{
    match x {
        Val::List(items) => {
            if items.len() > 0 && items[0] == Val::Symbol("unquote"@) {
                if items.len() >= 2 {
                    assert(well_formed(items[1]));
                    lemma_eval_valid(items[1], env, w, fuel);
                } else {
                    lemma_error_valid("InvalidArgs"@, seq![x]);
                }
            } else {
                lemma_quasi_items_valid(items, 0, seq![], env, w, fuel);
            }
        },
        _ => {},
    }
}

/// Filling in several templates keeps validity.
pub proof fn lemma_quasi_items_valid(
    items: Seq<Val>,
    i: int,
    acc: Seq<Val>,
    env: nat,
    w: World,
    fuel: nat,
)
    requires
        valid_world(w),
        all_valid(items),
        all_valid(acc),
    ensures
        valid_many(quasi_items(items, i, acc, env, w, fuel)),
    decreases fuel, 2nat, Val::List(items), items.len() - i,
{
    if 0 <= i < items.len() {
        let x = Val::List(items);
        assert(decreases_to!(x => x->List_0));
        assert(decreases_to!(x->List_0 => x->List_0[i]));
        assert(well_formed(items[i]));
        lemma_quasi_valid(items[i], env, w, fuel);
        let o = quasi_spec(items[i], env, w, fuel);
        match o.result {
            Ok(v) => {
                let more = acc.push(v);
                assert forall|j: int| 0 <= j < more.len() implies well_formed(
                    #[trigger] more[j],
                ) by {
                    if j < acc.len() {
                        assert(more[j] == acc[j]);
                    }
                }
                lemma_quasi_items_valid(items, i + 1, more, env, o.world, fuel);
            },
            Err(_) => {},
        }
    }
}

/// Calling a function value keeps validity.
pub proof fn lemma_apply_valid(f: Val, arg: Val, env: nat, w: World, fuel: nat)
    requires
        valid_world(w),
        well_formed(f),
        well_formed(arg),
    ensures
        valid(apply_spec(f, arg, env, w, fuel)),
    decreases fuel, 3nat, Val::Int(0), 0nat,
{
    lemma_error_valid("StepLimit"@, seq![]);
    lemma_error_valid("NotAList"@, seq![arg]);
    lemma_error_valid("NotAFunction"@, seq![f]);
    match f {
        Val::Function { fn_ref, is_macro: false } => match arg {
            Val::List(l) => {
                if fuel > 0 {
                    lemma_builtin_valid(fn_ref, l, env, w, (fuel - 1) as nat);
                }
            },
            _ => {},
        },
        Val::Lambda { args: params, body, captures, is_macro: false } => {
            let child = w.frames.len();
            lemma_push_frame_valid(w, captures);
            lemma_destructure_valid(*params, arg, child, w.push_frame(captures));
            lemma_error_valid("PatternMismatch"@, seq![*params]);
            let bound = destructure_spec(*params, arg, child, w.push_frame(captures));
            if bound.0 {
                lemma_eval_valid(*body, child, bound.1, fuel);
            }
        },
        _ => {},
    }
}

/// Calling a function on each item keeps validity.
pub proof fn lemma_map_items_valid(
    f: Val,
    items: Seq<Val>,
    i: int,
    acc: Seq<Val>,
    env: nat,
    w: World,
    fuel: nat,
)
    requires
        valid_world(w),
        well_formed(f),
        all_valid(items),
        all_valid(acc),
    ensures
        valid(map_items(f, items, i, acc, env, w, fuel)),
    decreases fuel, 4nat, Val::Int(0), items.len() - i,
{
    if 0 <= i < items.len() {
        assert(well_formed(items[i]));
        let one = seq![items[i]];
        assert(all_valid(one));
        lemma_apply_valid(f, Val::List(one), env, w, fuel);
        let o = apply_spec(f, Val::List(one), env, w, fuel);
        match o.result {
            Ok(v) => {
                let more = acc.push(v);
                assert forall|j: int| 0 <= j < more.len() implies well_formed(
                    #[trigger] more[j],
                ) by {
                    if j < acc.len() {
                        assert(more[j] == acc[j]);
                    }
                }
                lemma_map_items_valid(f, items, i + 1, more, env, o.world, fuel);
            },
            Err(_) => {},
        }
    }
}

/// `inspect!` keeps validity.
pub proof fn lemma_inspect_valid(args: Seq<Val>, env: nat, w: World, fuel: nat)
    requires
        valid_world(w),
        all_valid(args),
    ensures
        valid(inspect_atom_spec(args, env, w, fuel)),
    decreases fuel, 4nat, Val::Int(0), 0nat,
{
    lemma_usual_errors(args);
    if args.len() == 2 && args[0] is Atom && args[0]->Atom_0 < w.atoms.len() {
        let a = args[0]->Atom_0;
        assert(well_formed(w.atoms[a as int]));
        assert(well_formed(args[1]));
        let one = seq![w.atoms[a as int]];
        assert(all_valid(one));
        lemma_apply_valid(args[1], Val::List(one), env, w, fuel);
        let o = apply_spec(args[1], Val::List(one), env, w, fuel);
        match o.result {
            Ok(v) => {
                lemma_set_atom_valid(o.world, a, v);
            },
            Err(_) => {},
        }
    }
}

/// `eval` keeps validity.
pub proof fn lemma_eval_builtin_valid(args: Seq<Val>, env: nat, w: World, fuel: nat)
    requires
        valid_world(w),
        all_valid(args),
    ensures
        valid(eval_builtin_spec(args, env, w, fuel)),
    decreases fuel, 4nat, Val::Int(0), 0nat,
{
    if args.len() == 1 {
        assert(well_formed(args[0]));
        lemma_eval_valid(args[0], env, w, fuel);
    } else {
        lemma_eval_seq_valid(args, 0, seq![], env, w, fuel);
    }
}

/// `apply` keeps validity.
pub proof fn lemma_apply_builtin_valid(args: Seq<Val>, env: nat, w: World, fuel: nat)
    requires
        valid_world(w),
        all_valid(args),
    ensures
        valid(apply_builtin_spec(args, env, w, fuel)),
    decreases fuel, 4nat, Val::Int(0), 0nat,
{
    lemma_usual_errors(args);
    if args.len() == 2 {
        assert(well_formed(args[0]));
        assert(well_formed(args[1]));
        lemma_apply_valid(args[0], args[1], env, w, fuel);
    }
}

/// `map` keeps validity.
pub proof fn lemma_map_valid(args: Seq<Val>, env: nat, w: World, fuel: nat)
    requires
        valid_world(w),
        all_valid(args),
    ensures
        valid(map_spec(args, env, w, fuel)),
    decreases fuel, 5nat, Val::Int(0), 0nat,
{
    lemma_usual_errors(args);
    if args.len() == 2 {
        assert(well_formed(args[0]));
        assert(well_formed(args[1]));
        match args[1] {
            Val::List(l) => {
                lemma_map_items_valid(args[0], l, 0, seq![], env, w, fuel);
            },
            Val::Str(s) => {
                lemma_map_items_valid(args[0], char_strings(s), 0, seq![], env, w, fuel);
            },
            _ => {},
        }
    }
}

/// Every host operation keeps validity.
pub proof fn lemma_builtin_valid(f: Builtin, args: Seq<Val>, env: nat, w: World, fuel: nat)
    requires
        valid_world(w),
        all_valid(args),
    ensures
        valid(builtin_spec(f, args, env, w, fuel)),
    decreases fuel, 6nat, Val::Int(0), 0nat,
{
    lemma_numbers_valid(args);
    lemma_sequences_valid(args);
    lemma_tables_valid(args);
    lemma_state_valid(args, w);
    match f {
        Builtin::MapOver => {
            lemma_map_valid(args, env, w, fuel);
        },
        Builtin::Apply => {
            lemma_apply_builtin_valid(args, env, w, fuel);
        },
        Builtin::Eval => {
            lemma_eval_builtin_valid(args, env, w, fuel);
        },
        Builtin::InspectAtom => {
            lemma_inspect_valid(args, env, w, fuel);
        },
        Builtin::Lt => {
            assert(valid_result(relation_spec(Relation::Less, args)));
        },
        Builtin::Le => {
            assert(valid_result(relation_spec(Relation::LessEq, args)));
        },
        Builtin::Gt => {
            assert(valid_result(relation_spec(Relation::Greater, args)));
        },
        Builtin::Ge => {
            assert(valid_result(relation_spec(Relation::GreaterEq, args)));
        },
        Builtin::TypeIs(tag) => {
            assert(valid_result(type_is_spec(tag_name(tag), args)));
        },
        _ => {},
    }
}

/// The bindings of `let*` keep validity.
pub proof fn lemma_bind_all_valid(
    assigns: Seq<Val>,
    i: int,
    mismatch: Val,
    env: nat,
    w: World,
    fuel: nat,
)
    requires
        valid_world(w),
        all_valid(assigns),
        well_formed(mismatch),
    ensures
        valid_world(bind_all(assigns, i, mismatch, env, w, fuel).1),
        bind_all(assigns, i, mismatch, env, w, fuel).0 matches Some(e) ==> well_formed(e),
    decreases fuel, 7nat, Val::Int(0), assigns.len() - 2 * i,
{
    if 0 <= i && 2 * i + 1 < assigns.len() {
        assert(well_formed(assigns[2 * i + 1]));
        lemma_eval_valid(assigns[2 * i + 1], env, w, fuel);
        let o = eval_spec(assigns[2 * i + 1], env, w, fuel);
        match o.result {
            Ok(v) => {
                lemma_destructure_valid(assigns[2 * i], v, env, o.world);
                let bound = destructure_spec(assigns[2 * i], v, env, o.world);
                if bound.0 {
                    lemma_bind_all_valid(assigns, i + 1, mismatch, env, bound.1, fuel);
                }
            },
            Err(_) => {},
        }
    }
}

/// `if` keeps validity.
pub proof fn lemma_step_if_valid(items: Seq<Val>, env: nat, w: World, fuel: nat)
    requires
        valid_world(w),
        all_valid(items),
    ensures
        valid_step(step_if(items, env, w, fuel)),
    decreases fuel, 8nat, Val::Int(0), 0nat,
{
    lemma_usual_errors(items);
    if items.len() == 3 || items.len() == 4 {
        assert(well_formed(items[1]));
        assert(well_formed(items[2]));
        if items.len() == 4 {
            assert(well_formed(items[3]));
        }
        lemma_eval_valid(items[1], env, w, fuel);
    }
}

/// `quasiquote` keeps validity.
pub proof fn lemma_step_quasiquote_valid(items: Seq<Val>, env: nat, w: World, fuel: nat)
    requires
        valid_world(w),
        all_valid(items),
    ensures
        valid_step(step_quasiquote(items, env, w, fuel)),
    decreases fuel, 8nat, Val::Int(0), 0nat,
{
    lemma_usual_errors(items);
    if items.len() >= 2 {
        assert(well_formed(items[1]));
        lemma_quasi_valid(items[1], env, w, fuel);
    }
}

/// `err` keeps validity.
pub proof fn lemma_step_err_valid(items: Seq<Val>, env: nat, w: World, fuel: nat)
    requires
        valid_world(w),
        all_valid(items),
    ensures
        valid_step(step_err(items, env, w, fuel)),
    decreases fuel, 8nat, Val::Int(0), 0nat,
{
    lemma_usual_errors(items);
    if items.len() >= 2 && items[1] is Symbol {
        let rest = items.subrange(2, items.len() as int);
        assert forall|j: int| 0 <= j < rest.len() implies well_formed(#[trigger] rest[j]) by {
            assert(rest[j] == items[j + 2]);
        }
        lemma_eval_seq_valid(rest, 0, seq![], env, w, fuel);
        let m = eval_seq(rest, 0, seq![], env, w, fuel);
        match m.result {
            Ok(vs) => {
                lemma_error_valid(items[1]->Symbol_0, vs);
            },
            Err(_) => {},
        }
    }
}

/// `cons` keeps validity.
pub proof fn lemma_step_cons_valid(items: Seq<Val>, env: nat, w: World, fuel: nat)
    requires
        valid_world(w),
        all_valid(items),
    ensures
        valid_step(step_cons(items, env, w, fuel)),
    decreases fuel, 8nat, Val::Int(0), 0nat,
{
    lemma_usual_errors(items);
    if items.len() >= 3 {
        assert(well_formed(items[1]));
        assert(well_formed(items[2]));
        lemma_eval_valid(items[1], env, w, fuel);
    }
}

/// `let*` keeps validity.
pub proof fn lemma_step_let_valid(items: Seq<Val>, env: nat, w: World, fuel: nat)
    requires
        valid_world(w),
        all_valid(items),
    ensures
        valid_step(step_let(items, env, w, fuel)),
    decreases fuel, 8nat, Val::Int(0), 0nat,
{
    lemma_usual_errors(items);
    if items.len() == 3 && items[1] is List {
        assert(well_formed(items[1]));
        assert(well_formed(items[2]));
        lemma_push_frame_valid(w, env);
        lemma_bind_all_valid(
            items[1]->List_0,
            0,
            error_val("PatternMismatch"@, items),
            w.frames.len(),
            w.push_frame(env),
            fuel,
        );
    }
}

/// `def!` keeps validity.
pub proof fn lemma_step_def_valid(items: Seq<Val>, env: nat, w: World, fuel: nat)
    requires
        valid_world(w),
        all_valid(items),
    ensures
        valid_step(step_def(items, env, w, fuel)),
    decreases fuel, 8nat, Val::Int(0), 0nat,
{
    lemma_usual_errors(items);
    if items.len() == 3 && items[1] is Symbol {
        assert(well_formed(items[2]));
        lemma_eval_valid(items[2], env, w, fuel);
        let o = eval_spec(items[2], env, w, fuel);
        match o.result {
            Ok(v) => {
                let name = items[1]->Symbol_0;
                lemma_bind_valid(o.world, env, name, v);
                lemma_same_values(o.world.bind(env, name, v), o.world.bind(env, name, v).attach_doc(name));
            },
            Err(_) => {},
        }
    }
}

/// `do` keeps validity.
pub proof fn lemma_step_do_valid(items: Seq<Val>, env: nat, w: World, fuel: nat)
    requires
        valid_world(w),
        all_valid(items),
    ensures
        valid_step(step_do(items, env, w, fuel)),
    decreases fuel, 8nat, Val::Int(0), 0nat,
{
    if items.len() >= 2 {
        let inner = items.subrange(1, items.len() - 1);
        assert forall|j: int| 0 <= j < inner.len() implies well_formed(#[trigger] inner[j]) by {
            assert(inner[j] == items[j + 1]);
        }
        assert(well_formed(items[items.len() - 1]));
        lemma_eval_seq_valid(inner, 0, seq![], env, w, fuel);
    }
}

/// `try*` keeps validity.
pub proof fn lemma_step_try_valid(items: Seq<Val>, env: nat, w: World, fuel: nat)
    requires
        valid_world(w),
        all_valid(items),
    ensures
        valid_step(step_try(items, env, w, fuel)),
    decreases fuel, 8nat, Val::Int(0), 0nat,
{
    lemma_usual_errors(items);
    if items.len() >= 2 {
        assert(well_formed(items[1]));
        lemma_eval_valid(items[1], env, w, fuel);
        let o = eval_spec(items[1], env, w, fuel);
        match o.result {
            Ok(_) => {},
            Err(e) => {
                lemma_scan_catch_valid(items, 2, e, env, o.world);
            },
        }
    }
}

/// An application keeps validity.
pub proof fn lemma_step_call_valid(items: Seq<Val>, env: nat, w: World, fuel: nat)
    requires
        valid_world(w),
        all_valid(items),
        items.len() > 0,
    ensures
        valid_step(step_call(items, env, w, fuel)),
    decreases fuel, 8nat, Val::Int(0), 0nat,
{
    assert(well_formed(items[0]));
    lemma_eval_valid(items[0], env, w, fuel);
    let h = eval_spec(items[0], env, w, fuel);
    let rest = items.subrange(1, items.len() as int);
    assert forall|j: int| 0 <= j < rest.len() implies well_formed(#[trigger] rest[j]) by {
        assert(rest[j] == items[j + 1]);
    }
    match h.result {
        Err(_) => {},
        Ok(Val::Function { fn_ref, is_macro: false }) => {
            lemma_eval_seq_valid(rest, 0, seq![], env, h.world, fuel);
            let m = eval_seq(rest, 0, seq![], env, h.world, fuel);
            match m.result {
                Ok(vs) => {
                    lemma_builtin_valid(fn_ref, vs, env, m.world, fuel);
                },
                Err(_) => {},
            }
        },
        Ok(Val::Function { fn_ref, is_macro: true }) => {
            lemma_builtin_valid(fn_ref, rest, env, h.world, fuel);
        },
        Ok(Val::Lambda { args: params, body, captures, is_macro: false }) => {
            lemma_eval_seq_valid(rest, 0, seq![], env, h.world, fuel);
            let m = eval_seq(rest, 0, seq![], env, h.world, fuel);
            lemma_error_valid("PatternMismatch"@, seq![*params]);
            match m.result {
                Ok(vs) => {
                    lemma_push_frame_valid(m.world, captures);
                    lemma_destructure_valid(
                        *params,
                        Val::List(vs),
                        m.world.frames.len(),
                        m.world.push_frame(captures),
                    );
                },
                Err(_) => {},
            }
        },
        Ok(Val::Lambda { args: params, body, captures, is_macro: true }) => {
            let child = h.world.frames.len();
            lemma_error_valid("PatternMismatch"@, seq![*params]);
            lemma_push_frame_valid(h.world, captures);
            lemma_destructure_valid(*params, Val::List(rest), child, h.world.push_frame(captures));
            let bound = destructure_spec(
                *params,
                Val::List(rest),
                child,
                h.world.push_frame(captures),
            );
            if bound.0 {
                lemma_eval_valid(*body, child, bound.1, fuel);
            }
        },
        Ok(other) => {
            lemma_error_valid("NotAFunction"@, seq![other]);
        },
    }
}

/// The step of a list keeps validity.
pub proof fn lemma_step_list_valid(items: Seq<Val>, env: nat, w: World, fuel: nat)
    requires
        valid_world(w),
        all_valid(items),
        items.len() > 0,
    ensures
        valid_step(step_list(items, env, w, fuel)),
    decreases fuel, 9nat, Val::Int(0), 0nat,
{
    lemma_usual_errors(items);
    lemma_step_if_valid(items, env, w, fuel);
    lemma_step_quasiquote_valid(items, env, w, fuel);
    lemma_step_err_valid(items, env, w, fuel);
    lemma_step_cons_valid(items, env, w, fuel);
    lemma_step_let_valid(items, env, w, fuel);
    lemma_step_def_valid(items, env, w, fuel);
    lemma_step_do_valid(items, env, w, fuel);
    lemma_step_try_valid(items, env, w, fuel);
    lemma_step_call_valid(items, env, w, fuel);
    if items.len() == 3 {
        assert(well_formed(items[1]));
        assert(well_formed(items[2]));
    }
    if items.len() >= 2 {
        assert(well_formed(items[1]));
    }
    assert(valid_step(step_lambda(items, env, w)));
    assert(valid_step(step_quote(items, w)));
}

/// Every step keeps validity.
pub proof fn lemma_step_valid(syn: Val, env: nat, w: World, fuel: nat)
    requires
        valid_world(w),
        well_formed(syn),
    ensures
        valid_step(step_spec(syn, env, w, fuel)),
    decreases fuel, 10nat, Val::Int(0), 0nat,
{
    match syn {
        Val::List(items) => {
            if items.len() > 0 {
                lemma_step_list_valid(items, env, w, fuel);
            }
        },
        Val::Symbol(name) => {
            lemma_lookup_valid(w, env, name);
            lemma_error_valid("UnresolvedIdentifier"@, seq![syn]);
        },
        Val::Table(entries) => {
            lemma_eval_entries_valid(entries, 0, seq![], env, w, fuel);
        },
        _ => {},
    }
}

} // verus!
