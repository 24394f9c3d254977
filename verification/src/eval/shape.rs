//! Two facts about every evaluation: what fails, fails with an error value,
//! and no environment frame is ever taken away.

use vstd::prelude::*;
use crate::env::World;
use crate::eval::builtins::{
    add_spec, arith_step, as_macro_spec, assoc_spec, chr_spec, cons_spec, contains_spec,
    count_spec, dissoc_spec, div_spec, eq_spec, findall_spec, first_spec, fold_ints, get_spec,
    keys_spec, last_spec, list_spec, mul_spec, not_spec, nth_spec, relation_spec, rem_spec,
    rest_spec, str_spec, sub_spec, symbol_spec, tag_name, to_int_spec, typ_spec, type_is_spec,
    values_spec, ArithOp, Relation,
};
use crate::eval::model::{
    apply_builtin_spec, apply_spec, atom_spec, bind_all, builtin_spec, char_strings,
    destructure_items, destructure_spec, doc_spec, eval_builtin_spec, eval_entries, eval_seq,
    eval_spec, help_spec, input_spec, inspect_atom_spec, map_items, map_spec, print_spec,
    quasi_items, quasi_spec, quit_spec, scan_catch, set_atom_spec, step_call, step_cons,
    step_def, step_do, step_err, step_if, step_lambda, step_let, step_list, step_quasiquote,
    step_quote, step_spec, step_try, Many, Outcome, StepV, Stepped,
};
use crate::types::{error_val, is_error_val, Builtin, Val};

verus! {

/// What a constructed error is: an error value.
pub broadcast proof fn lemma_error_val(kind: Seq<char>, context: Seq<Val>)
    ensures
        is_error_val(#[trigger] error_val(kind, context)),
{
}

/// An outcome that keeps the frames of `w` and fails, if it fails, with an
/// error value.
pub open spec fn sound(w: World, o: Outcome) -> bool {
    &&& w.frames.len() <= o.world.frames.len()
    &&& o.result matches Err(e) ==> is_error_val(e)
}

/// The same of the evaluation of several expressions.
pub open spec fn sound_many(w: World, m: Many) -> bool {
    &&& w.frames.len() <= m.world.frames.len()
    &&& m.result matches Err(e) ==> is_error_val(e)
}

/// The same of one step.
pub open spec fn sound_step(w: World, s: Stepped) -> bool {
    &&& w.frames.len() <= s.world.frames.len()
    &&& s.step matches StepV::Done(Err(e)) ==> is_error_val(e)
}

/// Binding a pattern neither adds nor takes away a frame.
pub proof fn lemma_destructure_frames(pat: Val, v: Val, env: nat, w: World)
    ensures
        destructure_spec(pat, v, env, w).1.frames.len() == w.frames.len(),
    decreases pat, 0nat,
{
    match pat {
        Val::List(ps) => match v {
            Val::List(vs) => {
                if ps.len() <= vs.len() {
                    lemma_destructure_items_frames(ps, vs, 0, env, w);
                }
            },
            _ => {},
        },
        _ => {},
    }
}

/// Binding several patterns neither adds nor takes away a frame.
pub proof fn lemma_destructure_items_frames(ps: Seq<Val>, vs: Seq<Val>, i: int, env: nat, w: World)
    ensures
        destructure_items(ps, vs, i, env, w).1.frames.len() == w.frames.len(),
    decreases ps, ps.len() - i,
{
    if 0 <= i < ps.len() {
        lemma_destructure_frames(ps[i], vs[i], env, w);
        let r = destructure_spec(ps[i], vs[i], env, w);
        if r.0 {
            lemma_destructure_items_frames(ps, vs, i + 1, env, r.1);
        }
    }
}

/// A fold over integers fails only with an error value.
pub proof fn lemma_fold_ints(op: ArithOp, args: Seq<Val>, i: int, acc: i32)
    ensures
        fold_ints(op, args, i, acc) matches Err(e) ==> is_error_val(e),
    decreases args.len() - i,
{
    broadcast use lemma_error_val;

    if 0 <= i < args.len() {
        match args[i] {
            Val::Int(x) => {
                lemma_fold_ints(op, args, i + 1, arith_step(op, acc, x));
            },
            _ => {},
        }
    }
}

/// The operations that do not touch the state fail only with error values.
pub proof fn lemma_pure_failures(args: Seq<Val>)
    ensures
        add_spec(args) matches Err(e) ==> is_error_val(e),
        sub_spec(args) matches Err(e) ==> is_error_val(e),
        mul_spec(args) matches Err(e) ==> is_error_val(e),
        div_spec(args) matches Err(e) ==> is_error_val(e),
        rem_spec(args) matches Err(e) ==> is_error_val(e),
        eq_spec(args) is Ok,
        forall|rel: Relation| #[trigger] relation_spec(rel, args) matches Err(e) ==> is_error_val(e),
        not_spec(args) matches Err(e) ==> is_error_val(e),
        typ_spec(args) matches Err(e) ==> is_error_val(e),
        forall|name: Seq<char>| #[trigger]
            type_is_spec(name, args) matches Err(e) ==> is_error_val(e),
        list_spec(args) is Ok,
        first_spec(args) matches Err(e) ==> is_error_val(e),
        last_spec(args) matches Err(e) ==> is_error_val(e),
        rest_spec(args) matches Err(e) ==> is_error_val(e),
        nth_spec(args) matches Err(e) ==> is_error_val(e),
        count_spec(args) matches Err(e) ==> is_error_val(e),
        cons_spec(args) matches Err(e) ==> is_error_val(e),
        assoc_spec(args) matches Err(e) ==> is_error_val(e),
        dissoc_spec(args) matches Err(e) ==> is_error_val(e),
        get_spec(args) matches Err(e) ==> is_error_val(e),
        keys_spec(args) matches Err(e) ==> is_error_val(e),
        values_spec(args) matches Err(e) ==> is_error_val(e),
        contains_spec(args) matches Err(e) ==> is_error_val(e),
        str_spec(args) is Ok,
        symbol_spec(args) matches Err(e) ==> is_error_val(e),
        to_int_spec(args) matches Err(e) ==> is_error_val(e),
        chr_spec(args) matches Err(e) ==> is_error_val(e),
        findall_spec(args) matches Err(e) ==> is_error_val(e),
        as_macro_spec(args) matches Err(e) ==> is_error_val(e),
{
    broadcast use lemma_error_val;

    lemma_fold_ints(ArithOp::Plus, args, 0, 0);
    lemma_fold_ints(ArithOp::Minus, args, 0, 0);
    lemma_fold_ints(ArithOp::Times, args, 0, 1);
}

/// The operations on atoms, documentation, input and output are sound.
pub proof fn lemma_state_operations(args: Seq<Val>, w: World)
    ensures
        sound(w, atom_spec(args, w)),
        sound(w, set_atom_spec(args, w)),
        sound(w, print_spec(args, w)),
        sound(w, input_spec(args, w)),
        sound(w, doc_spec(args, w)),
        sound(w, help_spec(args, w)),
        sound(w, quit_spec(args, w)),
{
    broadcast use lemma_error_val;

}

/// Looking for a catch clause is sound, where the error in hand is an
/// error value.
pub proof fn lemma_scan_catch(items: Seq<Val>, i: int, e: Val, env: nat, w: World)
    requires
        is_error_val(e),
    ensures
        sound_step(w, scan_catch(items, i, e, env, w)),
    decreases items.len() - i,
{
    broadcast use lemma_error_val;

    if 0 <= i < items.len() {
        match items[i] {
            Val::List(l) => {
                if !(l.len() < 3 || l[0] != Val::Symbol("catch*"@) || !(l[1] is Symbol)) && l.len()
                    != 3 && l.len() == 4 && l[2] is Symbol {
                    lemma_scan_catch(items, i + 1, e, env, w);
                }
            },
            _ => {},
        }
    }
}

/// Evaluation is sound.
pub proof fn lemma_eval(syn: Val, env: nat, w: World, fuel: nat)
    ensures
        sound(w, eval_spec(syn, env, w, fuel)),
    decreases fuel, 0nat, Val::Int(0), 0nat,
{
    broadcast use lemma_error_val;

    if fuel > 0 {
        let f = (fuel - 1) as nat;
        lemma_step(syn, env, w, f);
        let s = step_spec(syn, env, w, f);
        match s.step {
            StepV::Done(_) => {},
            StepV::Tail { syn: next, env: e } => {
                lemma_eval(next, e, s.world, f);
            },
            StepV::Cons { head, syn: next, env: e } => {
                lemma_eval(next, e, s.world, f);
            },
        }
    }
}

/// The evaluation of several expressions is sound.
pub proof fn lemma_eval_seq(items: Seq<Val>, i: int, acc: Seq<Val>, env: nat, w: World, fuel: nat)
    ensures
        sound_many(w, eval_seq(items, i, acc, env, w, fuel)),
    decreases fuel, 1nat, Val::Int(0), items.len() - i,
{
    if 0 <= i < items.len() {
        lemma_eval(items[i], env, w, fuel);
        let o = eval_spec(items[i], env, w, fuel);
        match o.result {
            Ok(v) => {
                lemma_eval_seq(items, i + 1, acc.push(v), env, o.world, fuel);
            },
            Err(_) => {},
        }
    }
}

/// The evaluation of a table literal is sound.
pub proof fn lemma_eval_entries(
    entries: Seq<(Val, Val)>,
    i: int,
    acc: Seq<(Val, Val)>,
    env: nat,
    w: World,
    fuel: nat,
)
    ensures
        sound(w, eval_entries(entries, i, acc, env, w, fuel)),
    decreases fuel, 1nat, Val::Int(0), entries.len() - i,
{
    if 0 <= i < entries.len() {
        lemma_eval(entries[i].1, env, w, fuel);
        let o = eval_spec(entries[i].1, env, w, fuel);
        match o.result {
            Ok(v) => {
                lemma_eval_entries(entries, i + 1, acc.push((entries[i].0, v)), env, o.world, fuel);
            },
            Err(_) => {},
        }
    }
}

/// Filling in a template is sound.
pub proof fn lemma_quasi(x: Val, env: nat, w: World, fuel: nat)
    ensures
        sound(w, quasi_spec(x, env, w, fuel)),
    decreases fuel, 2nat, x, (if x is List {
        x->List_0.len() + 1
    } else {
        0
    }),
{
    broadcast use lemma_error_val;

    match x {
        Val::List(items) => {
            if items.len() > 0 && items[0] == Val::Symbol("unquote"@) {
                if items.len() >= 2 {
                    lemma_eval(items[1], env, w, fuel);
                }
            } else {
                lemma_quasi_items(items, 0, seq![], env, w, fuel);
            }
        },
        _ => {},
    }
}

/// Filling in several templates is sound.
pub proof fn lemma_quasi_items(items: Seq<Val>, i: int, acc: Seq<Val>, env: nat, w: World, fuel: nat)
    ensures
        sound_many(w, quasi_items(items, i, acc, env, w, fuel)),
    decreases fuel, 2nat, Val::List(items), items.len() - i,
{
    if 0 <= i < items.len() {
        let x = Val::List(items);
        assert(decreases_to!(x => x->List_0));
        assert(decreases_to!(x->List_0 => x->List_0[i]));
        lemma_quasi(items[i], env, w, fuel);
        let o = quasi_spec(items[i], env, w, fuel);
        match o.result {
            Ok(v) => {
                lemma_quasi_items(items, i + 1, acc.push(v), env, o.world, fuel);
            },
            Err(_) => {},
        }
    }
}

/// Calling a function value is sound.
pub proof fn lemma_apply(f: Val, arg: Val, env: nat, w: World, fuel: nat)
    ensures
        sound(w, apply_spec(f, arg, env, w, fuel)),
    decreases fuel, 3nat, Val::Int(0), 0nat,
{
    broadcast use lemma_error_val;

    match f {
        Val::Function { fn_ref, is_macro: false } => match arg {
            Val::List(l) => {
                if fuel > 0 {
                    lemma_builtin(fn_ref, l, env, w, (fuel - 1) as nat);
                }
            },
            _ => {},
        },
        Val::Lambda { args: params, body, captures, is_macro: false } => {
            let child = w.frames.len();
            lemma_destructure_frames(*params, arg, child, w.push_frame(captures));
            let bound = destructure_spec(*params, arg, child, w.push_frame(captures));
            if bound.0 {
                lemma_eval(*body, child, bound.1, fuel);
            }
        },
        _ => {},
    }
}

/// Calling a function on each item is sound.
pub proof fn lemma_map_items(
    f: Val,
    items: Seq<Val>,
    i: int,
    acc: Seq<Val>,
    env: nat,
    w: World,
    fuel: nat,
)
    ensures
        sound(w, map_items(f, items, i, acc, env, w, fuel)),
    decreases fuel, 4nat, Val::Int(0), items.len() - i,
{
    if 0 <= i < items.len() {
        lemma_apply(f, Val::List(seq![items[i]]), env, w, fuel);
        let o = apply_spec(f, Val::List(seq![items[i]]), env, w, fuel);
        match o.result {
            Ok(v) => {
                lemma_map_items(f, items, i + 1, acc.push(v), env, o.world, fuel);
            },
            Err(_) => {},
        }
    }
}

/// `inspect!` is sound.
pub proof fn lemma_inspect(args: Seq<Val>, env: nat, w: World, fuel: nat)
    ensures
        sound(w, inspect_atom_spec(args, env, w, fuel)),
    decreases fuel, 4nat, Val::Int(0), 0nat,
{
    broadcast use lemma_error_val;

    if args.len() == 2 && args[0] is Atom && args[0]->Atom_0 < w.atoms.len() {
        let a = args[0]->Atom_0;
        lemma_apply(args[1], Val::List(seq![w.atoms[a as int]]), env, w, fuel);
    }
}

/// `eval` is sound.
pub proof fn lemma_eval_builtin(args: Seq<Val>, env: nat, w: World, fuel: nat)
    ensures
        sound(w, eval_builtin_spec(args, env, w, fuel)),
    decreases fuel, 4nat, Val::Int(0), 0nat,
{
    if args.len() == 1 {
        lemma_eval(args[0], env, w, fuel);
    } else {
        lemma_eval_seq(args, 0, seq![], env, w, fuel);
    }
}

/// `apply` is sound.
pub proof fn lemma_apply_builtin(args: Seq<Val>, env: nat, w: World, fuel: nat)
    ensures
        sound(w, apply_builtin_spec(args, env, w, fuel)),
    decreases fuel, 4nat, Val::Int(0), 0nat,
{
    broadcast use lemma_error_val;

    if args.len() == 2 {
        lemma_apply(args[0], args[1], env, w, fuel);
    }
}

/// `map` is sound.
pub proof fn lemma_map(args: Seq<Val>, env: nat, w: World, fuel: nat)
    ensures
        sound(w, map_spec(args, env, w, fuel)),
    decreases fuel, 5nat, Val::Int(0), 0nat,
{
    broadcast use lemma_error_val;

    if args.len() == 2 {
        match args[1] {
            Val::List(l) => {
                lemma_map_items(args[0], l, 0, seq![], env, w, fuel);
            },
            Val::Str(s) => {
                lemma_map_items(args[0], char_strings(s), 0, seq![], env, w, fuel);
            },
            _ => {},
        }
    }
}

/// Every host operation is sound: where it fails, the failure is an error
/// value.
pub proof fn lemma_builtin(f: Builtin, args: Seq<Val>, env: nat, w: World, fuel: nat)
    ensures
        sound(w, builtin_spec(f, args, env, w, fuel)),
    decreases fuel, 6nat, Val::Int(0), 0nat,
{
    lemma_pure_failures(args);
    lemma_state_operations(args, w);
    match f {
        Builtin::MapOver => {
            lemma_map(args, env, w, fuel);
        },
        Builtin::Apply => {
            lemma_apply_builtin(args, env, w, fuel);
        },
        Builtin::Eval => {
            lemma_eval_builtin(args, env, w, fuel);
        },
        Builtin::InspectAtom => {
            lemma_inspect(args, env, w, fuel);
        },
        Builtin::Lt => {
            assert(relation_spec(Relation::Less, args) matches Err(e) ==> is_error_val(e));
        },
        Builtin::Le => {
            assert(relation_spec(Relation::LessEq, args) matches Err(e) ==> is_error_val(e));
        },
        Builtin::Gt => {
            assert(relation_spec(Relation::Greater, args) matches Err(e) ==> is_error_val(e));
        },
        Builtin::Ge => {
            assert(relation_spec(Relation::GreaterEq, args) matches Err(e) ==> is_error_val(e));
        },
        Builtin::TypeIs(tag) => {
            assert(type_is_spec(tag_name(tag), args) matches Err(e) ==> is_error_val(e));
        },
        _ => {},
    }
}

/// The bindings of `let*` are sound, where the error for a mismatch is an
/// error value.
pub proof fn lemma_bind_all(assigns: Seq<Val>, i: int, mismatch: Val, env: nat, w: World, fuel: nat)
    requires
        is_error_val(mismatch),
    ensures
        w.frames.len() <= bind_all(assigns, i, mismatch, env, w, fuel).1.frames.len(),
        bind_all(assigns, i, mismatch, env, w, fuel).0 matches Some(e) ==> is_error_val(e),
    decreases fuel, 7nat, Val::Int(0), assigns.len() - 2 * i,
{
    if 0 <= i && 2 * i + 1 < assigns.len() {
        lemma_eval(assigns[2 * i + 1], env, w, fuel);
        let o = eval_spec(assigns[2 * i + 1], env, w, fuel);
        match o.result {
            Ok(v) => {
                lemma_destructure_frames(assigns[2 * i], v, env, o.world);
                let bound = destructure_spec(assigns[2 * i], v, env, o.world);
                if bound.0 {
                    lemma_bind_all(assigns, i + 1, mismatch, env, bound.1, fuel);
                }
            },
            Err(_) => {},
        }
    }
}

/// `if` is sound.
pub proof fn lemma_step_if(items: Seq<Val>, env: nat, w: World, fuel: nat)
    ensures
        sound_step(w, step_if(items, env, w, fuel)),
    decreases fuel, 8nat, Val::Int(0), 0nat,
{
    broadcast use lemma_error_val;

    if items.len() == 3 || items.len() == 4 {
        lemma_eval(items[1], env, w, fuel);
    }
}

/// `quasiquote` is sound.
pub proof fn lemma_step_quasiquote(items: Seq<Val>, env: nat, w: World, fuel: nat)
    ensures
        sound_step(w, step_quasiquote(items, env, w, fuel)),
    decreases fuel, 8nat, Val::Int(0), 0nat,
{
    broadcast use lemma_error_val;

    if items.len() >= 2 {
        lemma_quasi(items[1], env, w, fuel);
    }
}

/// `err` is sound: what it raises is an error value.
pub proof fn lemma_step_err(items: Seq<Val>, env: nat, w: World, fuel: nat)
    ensures
        sound_step(w, step_err(items, env, w, fuel)),
    decreases fuel, 8nat, Val::Int(0), 0nat,
{
    broadcast use lemma_error_val;

    if items.len() >= 2 && items[1] is Symbol {
        lemma_eval_seq(items.subrange(2, items.len() as int), 0, seq![], env, w, fuel);
    }
}

/// `cons` is sound.
pub proof fn lemma_step_cons(items: Seq<Val>, env: nat, w: World, fuel: nat)
    ensures
        sound_step(w, step_cons(items, env, w, fuel)),
    decreases fuel, 8nat, Val::Int(0), 0nat,
{
    broadcast use lemma_error_val;

    if items.len() >= 3 {
        lemma_eval(items[1], env, w, fuel);
    }
}

/// `let*` is sound.
pub proof fn lemma_step_let(items: Seq<Val>, env: nat, w: World, fuel: nat)
    ensures
        sound_step(w, step_let(items, env, w, fuel)),
    decreases fuel, 8nat, Val::Int(0), 0nat,
{
    broadcast use lemma_error_val;

    if items.len() == 3 && items[1] is List {
        lemma_bind_all(
            items[1]->List_0,
            0,
            error_val("PatternMismatch"@, items),
            w.frames.len(),
            w.push_frame(env),
            fuel,
        );
    }
}

/// `def!` is sound.
pub proof fn lemma_step_def(items: Seq<Val>, env: nat, w: World, fuel: nat)
    ensures
        sound_step(w, step_def(items, env, w, fuel)),
    decreases fuel, 8nat, Val::Int(0), 0nat,
{
    broadcast use lemma_error_val;

    if items.len() == 3 && items[1] is Symbol {
        lemma_eval(items[2], env, w, fuel);
    }
}

/// `do` is sound.
pub proof fn lemma_step_do(items: Seq<Val>, env: nat, w: World, fuel: nat)
    ensures
        sound_step(w, step_do(items, env, w, fuel)),
    decreases fuel, 8nat, Val::Int(0), 0nat,
{
    if items.len() >= 2 {
        lemma_eval_seq(items.subrange(1, items.len() - 1), 0, seq![], env, w, fuel);
    }
}

/// `try*` is sound.
pub proof fn lemma_step_try(items: Seq<Val>, env: nat, w: World, fuel: nat)
    ensures
        sound_step(w, step_try(items, env, w, fuel)),
    decreases fuel, 8nat, Val::Int(0), 0nat,
{
    broadcast use lemma_error_val;

    if items.len() >= 2 {
        lemma_eval(items[1], env, w, fuel);
        let o = eval_spec(items[1], env, w, fuel);
        match o.result {
            Ok(_) => {},
            Err(e) => {
                lemma_scan_catch(items, 2, e, env, o.world);
            },
        }
    }
}

/// An application is sound.
pub proof fn lemma_step_call(items: Seq<Val>, env: nat, w: World, fuel: nat)
    ensures
        sound_step(w, step_call(items, env, w, fuel)),
    decreases fuel, 8nat, Val::Int(0), 0nat,
{
    broadcast use lemma_error_val;

    lemma_eval(items[0], env, w, fuel);
    let h = eval_spec(items[0], env, w, fuel);
    let rest = items.subrange(1, items.len() as int);
    match h.result {
        Err(_) => {},
        Ok(Val::Function { fn_ref, is_macro: false }) => {
            lemma_eval_seq(rest, 0, seq![], env, h.world, fuel);
            let m = eval_seq(rest, 0, seq![], env, h.world, fuel);
            match m.result {
                Ok(vs) => {
                    lemma_builtin(fn_ref, vs, env, m.world, fuel);
                },
                Err(_) => {},
            }
        },
        Ok(Val::Function { fn_ref, is_macro: true }) => {
            lemma_builtin(fn_ref, rest, env, h.world, fuel);
        },
        Ok(Val::Lambda { args: params, body, captures, is_macro: false }) => {
            lemma_eval_seq(rest, 0, seq![], env, h.world, fuel);
            let m = eval_seq(rest, 0, seq![], env, h.world, fuel);
            match m.result {
                Ok(vs) => {
                    lemma_destructure_frames(
                        *params,
                        Val::List(vs),
                        m.world.frames.len(),
                        m.world.push_frame(captures),
                    );
                },
                Err(_) => {},
            }
        },
        Ok(Val::Lambda { args: params, body, captures, is_macro: true }) => {
            let child = h.world.frames.len();
            lemma_destructure_frames(*params, Val::List(rest), child, h.world.push_frame(captures));
            let bound = destructure_spec(
                *params,
                Val::List(rest),
                child,
                h.world.push_frame(captures),
            );
            if bound.0 {
                lemma_eval(*body, child, bound.1, fuel);
            }
        },
        Ok(_) => {},
    }
}

/// The step of a list is sound.
pub proof fn lemma_step_list(items: Seq<Val>, env: nat, w: World, fuel: nat)
    ensures
        sound_step(w, step_list(items, env, w, fuel)),
    decreases fuel, 9nat, Val::Int(0), 0nat,
{
    broadcast use lemma_error_val;

    lemma_step_if(items, env, w, fuel);
    lemma_step_quasiquote(items, env, w, fuel);
    lemma_step_err(items, env, w, fuel);
    lemma_step_cons(items, env, w, fuel);
    lemma_step_let(items, env, w, fuel);
    lemma_step_def(items, env, w, fuel);
    lemma_step_do(items, env, w, fuel);
    lemma_step_try(items, env, w, fuel);
    lemma_step_call(items, env, w, fuel);
    assert(sound_step(w, step_lambda(items, env, w)));
    assert(sound_step(w, step_quote(items, w)));
}

/// Every step is sound.
pub proof fn lemma_step(syn: Val, env: nat, w: World, fuel: nat)
    ensures
        sound_step(w, step_spec(syn, env, w, fuel)),
    decreases fuel, 10nat, Val::Int(0), 0nat,
{
    broadcast use lemma_error_val;

    match syn {
        Val::List(items) => {
            if items.len() > 0 {
                lemma_step_list(items, env, w, fuel);
            }
        },
        Val::Table(entries) => {
            lemma_eval_entries(entries, 0, seq![], env, w, fuel);
        },
        _ => {},
    }
}

} // verus!
