//! Laws of the language, proved of the definition of evaluation.

use vstd::prelude::*;
use crate::env::World;
use crate::eval::builtins::{first_spec, typ_spec, type_is_spec, type_of};
use crate::eval::model::{
    bind_all, builtin_spec, destructure_spec, eval_seq, eval_spec, quasi_items, quasi_spec,
    scan_catch, step_call, step_err, step_let, step_list, step_quasiquote, step_quote, step_spec,
    step_try,
    Many, Outcome, StepV,
};
use crate::eval::shape::{lemma_builtin, lemma_error_val, lemma_eval};
use crate::types::{bool_val, error_val, is_error_val, truthy, Builtin, Val};

verus! {

/// Integers, strings, functions, lambdas and atoms evaluate to themselves,
/// in every frame and every state, and leave the state as it is.
pub proof fn law_self_evaluation(v: Val, env: nat, w: World, fuel: nat)
    requires
        v is Int || v is Str || v is Function || v is Lambda || v is Atom,
        fuel > 0,
    ensures
        eval_spec(v, env, w, fuel) == (Outcome { result: Ok(v), world: w }),
{
    assert(step_spec(v, env, w, (fuel - 1) as nat).world == w);
}

/// Every value is truthy except the symbols `false` and `nil`.
pub proof fn law_truthiness(v: Val)
    ensures
        !truthy(v) <==> (v == Val::Symbol("false"@) || v == Val::Symbol("nil"@)),
{
}

/// Whether no `(unquote ...)` form stands anywhere in the lists of `x`.
pub open spec fn no_unquote(x: Val) -> bool
    decreases x,
{
    match x {
        Val::List(items) => {
            &&& !(items.len() > 0 && items[0] == Val::Symbol("unquote"@))
            &&& forall|i: int| 0 <= i < items.len() ==> no_unquote(#[trigger] items[i])
        },
        _ => true,
    }
}

/// A template without unquoted parts is copied item by item.
proof fn lemma_quasi_items_copy(items: Seq<Val>, i: int, acc: Seq<Val>, env: nat, w: World, fuel: nat)
    requires
        0 <= i <= items.len(),
        forall|j: int| 0 <= j < items.len() ==> no_unquote(#[trigger] items[j]),
        acc == items.subrange(0, i),
    ensures
        quasi_items(items, i, acc, env, w, fuel) == (Many { result: Ok(items), world: w }),
    decreases Val::List(items), items.len() - i,
{
    if i < items.len() {
        let x = Val::List(items);
        assert(decreases_to!(x => x->List_0));
        assert(decreases_to!(x->List_0 => x->List_0[i]));
        lemma_quasi_copy(items[i], env, w, fuel);
        assert(acc.push(items[i]) == items.subrange(0, i + 1));
        lemma_quasi_items_copy(items, i + 1, acc.push(items[i]), env, w, fuel);
    } else {
        assert(acc == items);
    }
}

/// A template without unquoted parts is its own value.
proof fn lemma_quasi_copy(x: Val, env: nat, w: World, fuel: nat)
    requires
        no_unquote(x),
    ensures
        quasi_spec(x, env, w, fuel) == (Outcome { result: Ok(x), world: w }),
    decreases x, (if x is List {
        x->List_0.len() + 1
    } else {
        0
    }),
{
    match x {
        Val::List(items) => {
            assert(items.subrange(0, 0) =~= seq![]);
            lemma_quasi_items_copy(items, 0, seq![], env, w, fuel);
        },
        _ => {},
    }
}

/// Quasiquote identity: where `x` holds no unquoted part, `(quasiquote x)`
/// and `(quote x)` evaluate alike, to `x` itself.
pub proof fn law_quasiquote_identity(x: Val, env: nat, w: World, fuel: nat)
    requires
        no_unquote(x),
        fuel > 0,
    ensures
        eval_spec(Val::List(seq![Val::Symbol("quasiquote"@), x]), env, w, fuel) == (Outcome {
            result: Ok(x),
            world: w,
        }),
        eval_spec(Val::List(seq![Val::Symbol("quote"@), x]), env, w, fuel) == (Outcome {
            result: Ok(x),
            world: w,
        }),
{
    reveal_strlit("quasiquote");
    reveal_strlit("quote");
    reveal_strlit("if");
    reveal_strlit("\\");
    let f = (fuel - 1) as nat;
    lemma_quasi_copy(x, env, w, f);
    let qq = seq![Val::Symbol("quasiquote"@), x];
    let q = seq![Val::Symbol("quote"@), x];
    assert("quasiquote"@.len() == 10);
    assert("quote"@.len() == 5);
    assert("if"@.len() == 2);
    assert("\\"@.len() == 1);
    assert(step_list(qq, env, w, f) == step_quasiquote(qq, env, w, f));
    assert(step_list(q, env, w, f) == step_quote(q, w));
    assert(step_spec(Val::List(qq), env, w, f) == step_list(qq, env, w, f));
    assert(step_spec(Val::List(q), env, w, f) == step_list(q, env, w, f));
}

/// Error shape: an error value is what `err?` takes for an error, its first
/// element is the symbol `err`, and its type is `err`.
pub proof fn lemma_error_is_seen(e: Val)
    requires
        is_error_val(e),
    ensures
        type_is_spec("err"@, seq![e]) == Ok::<Val, Val>(bool_val(true)),
        first_spec(seq![e]) == Ok::<Val, Val>(Val::Symbol("err"@)),
        typ_spec(seq![e]) == Ok::<Val, Val>(Val::Symbol("err"@)),
{
    assert(type_of(e) == "err"@);
    assert(seq![e][0] == e);
}

/// Error shape: whatever a host operation fails with is an error value, so
/// `err?` is true of it, its first element is the symbol `err`, and its
/// type is `err`.
pub proof fn law_error_shape(f: Builtin, args: Seq<Val>, env: nat, w: World, fuel: nat)
    ensures
        builtin_spec(f, args, env, w, fuel).result matches Err(e) ==> {
            &&& is_error_val(e)
            &&& type_is_spec("err"@, seq![e]) == Ok::<Val, Val>(bool_val(true))
            &&& first_spec(seq![e]) == Ok::<Val, Val>(Val::Symbol("err"@))
            &&& typ_spec(seq![e]) == Ok::<Val, Val>(Val::Symbol("err"@))
        },
{
    lemma_builtin(f, args, env, w, fuel);
    match builtin_spec(f, args, env, w, fuel).result {
        Err(e) => {
            lemma_error_is_seen(e);
        },
        Ok(_) => {},
    }
}

/// Whatever an evaluation fails with is an error value, and an evaluation
/// never takes a frame away.
pub proof fn law_failures_are_errors(syn: Val, env: nat, w: World, fuel: nat)
    ensures
        eval_spec(syn, env, w, fuel).result matches Err(e) ==> is_error_val(e),
        w.frames.len() <= eval_spec(syn, env, w, fuel).world.frames.len(),
{
    lemma_eval(syn, env, w, fuel);
}

/// Whether a name is one of the symbols that are their own value.
pub open spec fn is_constant_name(p: Seq<char>) -> bool {
    p == "true"@ || p == "false"@ || p == "nil"@
}

/// The names of the special forms are different from one another.
proof fn lemma_form_names()
    ensures
        "\\"@.len() == 1,
        "if"@.len() == 2,
        "err"@.len() == 3,
        "do"@.len() == 2,
        "cons"@.len() == 4,
        "let*"@.len() == 4,
        "def!"@.len() == 4,
        "try*"@.len() == 4,
        "quote"@.len() == 5,
        "quasiquote"@.len() == 10,
        "catch*"@.len() == 6,
        "if"@[0] == 'i',
        "do"@[0] == 'd',
        "cons"@[0] == 'c',
        "let*"@[0] == 'l',
        "def!"@[0] == 'd',
        "try*"@[0] == 't',
        "try*"@[1] == 'r',
        "type"@[0] == 't',
        "true"@.len() == 4,
        "true"@[1] == 'r',
        "type"@.len() == 4,
        "type"@[1] == 'y',
        "false"@.len() == 5,
        "nil"@.len() == 3,
        "e"@.len() == 1,
{
    reveal_strlit("\\");
    reveal_strlit("if");
    reveal_strlit("err");
    reveal_strlit("do");
    reveal_strlit("cons");
    reveal_strlit("let*");
    reveal_strlit("def!");
    reveal_strlit("try*");
    reveal_strlit("quote");
    reveal_strlit("quasiquote");
    reveal_strlit("catch*");
    reveal_strlit("true");
    reveal_strlit("type");
    reveal_strlit("false");
    reveal_strlit("nil");
    reveal_strlit("e");
}

/// Destructuring law: `(let* (p e) p)` gives what `e` gives, where `p` is
/// a symbol that is not its own value. `e` is evaluated in the new frame
/// that `let*` makes.
pub proof fn law_let_binds(p: Seq<char>, e: Val, env: nat, w: World, fuel: nat)
    requires
        !is_constant_name(p),
        fuel >= 2,
    ensures
        eval_spec(
            Val::List(
                seq![
                    Val::Symbol("let*"@),
                    Val::List(seq![Val::Symbol(p), e]),
                    Val::Symbol(p),
                ],
            ),
            env,
            w,
            fuel,
        ).result == eval_spec(
            e,
            w.frames.len(),
            w.push_frame(env),
            (fuel - 1) as nat,
        ).result,
{
    lemma_form_names();
    let f = (fuel - 1) as nat;
    let assigns = seq![Val::Symbol(p), e];
    let items = seq![Val::Symbol("let*"@), Val::List(assigns), Val::Symbol(p)];
    let child = w.frames.len();
    let w1 = w.push_frame(env);
    let mismatch = error_val("PatternMismatch"@, items);
    let o = eval_spec(e, child, w1, f);
    lemma_eval(e, child, w1, f);
    assert(step_spec(Val::List(items), env, w, f) == step_list(items, env, w, f));
    assert(step_list(items, env, w, f) == step_let(items, env, w, f));
    assert(assigns[1] == e);
    assert(assigns[0] == Val::Symbol(p));
    match o.result {
        Ok(v) => {
            let wb = o.world.bind(child, p, v);
            assert(destructure_spec(Val::Symbol(p), v, child, o.world) == (true, wb));
            assert(bind_all(assigns, 1, mismatch, child, wb, f) == (None::<Val>, wb));
            assert(bind_all(assigns, 0, mismatch, child, w1, f) == (None::<Val>, wb));
            assert(step_let(items, env, w, f).step == (StepV::Tail {
                syn: Val::Symbol(p),
                env: child,
            }));
            assert(step_let(items, env, w, f).world == wb);
            assert(wb.frames[child as int].vars.contains_key(p));
            assert(wb.lookup(child, p) == Some(v));
            assert(step_spec(Val::Symbol(p), child, wb, (f - 1) as nat).step == StepV::Done(
                Ok::<Val, Val>(v),
            ));
            assert(eval_spec(Val::Symbol(p), child, wb, f).result == Ok::<Val, Val>(v));
        },
        Err(err) => {
            assert(bind_all(assigns, 0, mismatch, child, w1, f) == (Some(err), o.world));
        },
    }
}

/// `(err K)` raises the error value `(err K)`.
proof fn lemma_raise(k: Seq<char>, env: nat, w: World, fuel: nat)
    requires
        fuel > 0,
    ensures
        eval_spec(Val::List(seq![Val::Symbol("err"@), Val::Symbol(k)]), env, w, fuel) == (Outcome {
            result: Err(error_val(k, seq![])),
            world: w,
        }),
{
    lemma_form_names();
    let f = (fuel - 1) as nat;
    let raise = seq![Val::Symbol("err"@), Val::Symbol(k)];
    assert(raise.subrange(2, 2) =~= seq![]);
    assert(eval_seq(seq![], 0, seq![], env, w, f) == (Many { result: Ok(seq![]), world: w }));
    assert(step_err(raise, env, w, f).step == StepV::Done(Err::<Val, Val>(error_val(k, seq![]))));
    assert(step_err(raise, env, w, f).world == w);
    assert(step_list(raise, env, w, f) == step_err(raise, env, w, f));
    assert(step_spec(Val::List(raise), env, w, f) == step_list(raise, env, w, f));
}

/// `(type e)` is the symbol `err` where `e` is bound to an error value and
/// `type` to the host operation of that name.
proof fn lemma_type_of_error(error: Val, env: nat, w: World, fuel: nat)
    requires
        is_error_val(error),
        w.lookup(env, "e"@) == Some(error),
        w.lookup(env, "type"@) == Some(Val::Function { fn_ref: Builtin::Type, is_macro: false }),
        fuel >= 2,
    ensures
        eval_spec(
            Val::List(seq![Val::Symbol("type"@), Val::Symbol("e"@)]),
            env,
            w,
            fuel,
        ).result == Ok::<Val, Val>(Val::Symbol("err"@)),
{
    lemma_form_names();
    let f = (fuel - 1) as nat;
    let body_items = seq![Val::Symbol("type"@), Val::Symbol("e"@)];
    let type_fn = Val::Function { fn_ref: Builtin::Type, is_macro: false };
    lemma_symbol_value("type"@, env, w, f, type_fn);
    lemma_symbol_value("e"@, env, w, f, error);
    let rest = body_items.subrange(1, 2);
    assert(rest =~= seq![Val::Symbol("e"@)]);
    assert(eval_seq(rest, 1, seq![error], env, w, f) == (Many {
        result: Ok(seq![error]),
        world: w,
    }));
    assert(seq![].push(error) =~= seq![error]);
    assert(eval_seq(rest, 0, seq![], env, w, f) == (Many { result: Ok(seq![error]), world: w }));
    lemma_error_is_seen(error);
    assert(builtin_spec(Builtin::Type, seq![error], env, w, f).result == Ok::<Val, Val>(
        Val::Symbol("err"@),
    ));
    assert(step_call(body_items, env, w, f).step == StepV::Done(
        Ok::<Val, Val>(Val::Symbol("err"@)),
    ));
    assert(step_list(body_items, env, w, f) == step_call(
        body_items,
        env,
        w,
        f,
    ));
    assert(step_spec(Val::List(body_items), env, w, f) == step_list(body_items, env, w, f));
}

/// The clause `(catch* e BODY)` takes every error: it binds the error to
/// `e` in a new child frame, and BODY is in tail position there.
proof fn lemma_catch_all(handled: Val, body: Val, error: Val, env: nat, w: World, fuel: nat)
    requires
        fuel > 0,
        eval_spec(handled, env, w, (fuel - 1) as nat) == (Outcome {
            result: Err(error),
            world: w,
        }),
    ensures
        eval_spec(
            Val::List(
                seq![
                    Val::Symbol("try*"@),
                    handled,
                    Val::List(seq![Val::Symbol("catch*"@), Val::Symbol("e"@), body]),
                ],
            ),
            env,
            w,
            fuel,
        ) == eval_spec(
            body,
            w.frames.len(),
            w.push_frame(env).bind(w.frames.len(), "e"@, error),
            (fuel - 1) as nat,
        ),
{
    lemma_form_names();
    let f = (fuel - 1) as nat;
    let clause = Val::List(seq![Val::Symbol("catch*"@), Val::Symbol("e"@), body]);
    let items = seq![Val::Symbol("try*"@), handled, clause];
    let child = w.frames.len();
    let wb = w.push_frame(env).bind(child, "e"@, error);
    assert(items[2] == clause);
    assert(items[1] == handled);
    assert(scan_catch(items, 2, error, env, w).step == (StepV::Tail { syn: body, env: child }));
    assert(scan_catch(items, 2, error, env, w).world == wb);
    assert(step_try(items, env, w, f) == scan_catch(items, 2, error, env, w));
    assert(step_list(items, env, w, f) == step_try(items, env, w, f));
    assert(step_spec(Val::List(items), env, w, f) == step_list(items, env, w, f));
}

/// `try*` semantics: `(try* (err K) (catch* e (type e)))` is the symbol
/// `err`, in every frame from which `type` is the host operation of that
/// name.
pub proof fn law_try_catches(k: Seq<char>, env: nat, w: World, fuel: nat)
    requires
        env < w.frames.len(),
        w.lookup(env, "type"@) == Some(Val::Function { fn_ref: Builtin::Type, is_macro: false }),
        fuel >= 4,
    ensures
        eval_spec(
            Val::List(
                seq![
                    Val::Symbol("try*"@),
                    Val::List(seq![Val::Symbol("err"@), Val::Symbol(k)]),
                    Val::List(
                        seq![
                            Val::Symbol("catch*"@),
                            Val::Symbol("e"@),
                            Val::List(seq![Val::Symbol("type"@), Val::Symbol("e"@)]),
                        ],
                    ),
                ],
            ),
            env,
            w,
            fuel,
        ).result == Ok::<Val, Val>(Val::Symbol("err"@)),
{
    lemma_form_names();
    let f = (fuel - 1) as nat;
    let raise = Val::List(seq![Val::Symbol("err"@), Val::Symbol(k)]);
    let body = Val::List(seq![Val::Symbol("type"@), Val::Symbol("e"@)]);
    let error = error_val(k, seq![]);
    let child = w.frames.len();
    let wb = w.push_frame(env).bind(child, "e"@, error);
    lemma_raise(k, env, w, f);
    lemma_catch_all(raise, body, error, env, w, fuel);
    assert(wb.frames[child as int].vars.contains_key("e"@));
    assert(wb.lookup(child, "e"@) == Some(error));
    lemma_lookup_kept(w, env, child, "e"@, error, "type"@);
    lemma_error_val(k, seq![]);
    lemma_type_of_error(error, child, wb, f);
}

/// A symbol that is bound, and is not its own value, evaluates to what it
/// is bound to.
proof fn lemma_symbol_value(name: Seq<char>, env: nat, w: World, fuel: nat, v: Val)
    requires
        !is_constant_name(name),
        w.lookup(env, name) == Some(v),
        fuel > 0,
    ensures
        eval_spec(Val::Symbol(name), env, w, fuel) == (Outcome { result: Ok(v), world: w }),
{
    assert(step_spec(Val::Symbol(name), env, w, (fuel - 1) as nat).step == StepV::Done(
        Ok::<Val, Val>(v),
    ));
}

/// A binding in a new child frame hides no other name of the frames around
/// it.
proof fn lemma_lookup_kept(w: World, env: nat, child: nat, bound: Seq<char>, v: Val, name: Seq<char>)
    requires
        env < w.frames.len(),
        child == w.frames.len(),
        bound != name,
    ensures
        w.push_frame(env).bind(child, bound, v).lookup(child, name) == w.lookup(env, name),
{
    let wb = w.push_frame(env).bind(child, bound, v);
    lemma_lookup_below(w, wb, env, name);
}

/// Looking a name up from a frame sees only that frame and the frames
/// before it.
proof fn lemma_lookup_below(w1: World, w2: World, env: nat, name: Seq<char>)
    requires
        env < w1.frames.len(),
        w1.frames.len() <= w2.frames.len(),
        forall|i: int| 0 <= i < w1.frames.len() ==> w1.frames[i] == w2.frames[i],
    ensures
        w2.lookup(env, name) == w1.lookup(env, name),
    decreases env,
{
    let frame = w1.frames[env as int];
    if !frame.vars.contains_key(name) {
        match frame.parent {
            Some(p) => {
                if p < env {
                    lemma_lookup_below(w1, w2, p, name);
                }
            },
            None => {},
        }
    }
}

} // verus!
